use vn_lunar_core::{
    get_stem_branch, get_zodiac, is_leap_year, jd_from_date, jd_to_date, time_of_day_from_seconds,
    validate_solar_date, EarthlyBranch, Element, HeavenlyStem, JieQiName, LunarError, SolarDate,
    TimeOfDay, YinYang, Zodiac,
};

#[test]
fn jd_round_trip_j2000() {
    let jd = jd_from_date(1, 1, 2000);
    let d = jd_to_date(jd);
    assert_eq!(d, SolarDate::new(2000, 1, 1));
}

#[test]
fn stem_branch_cycle() {
    let sb1984 = get_stem_branch(1984);
    assert_eq!(sb1984.stem, HeavenlyStem::Giap);
    assert_eq!(sb1984.branch, EarthlyBranch::Ty);
    assert_eq!(get_stem_branch(2044).stem, HeavenlyStem::Giap);
}

#[test]
fn julian_day_numbers() {
    assert_eq!(jd_from_date(1, 1, 2000), 2_451_545);
    assert_eq!(jd_from_date(15, 10, 1582), 2_299_161);
    assert_eq!(jd_from_date(4, 10, 1582), 2_299_160);
    assert_eq!(jd_from_date(1, 1, 1900), 2_415_021);
    assert_eq!(jd_to_date(2_299_160), SolarDate::new(1582, 10, 4));
    assert_eq!(jd_to_date(2_488_434), SolarDate::new(2100, 12, 31));
    assert_eq!(jd_to_date(jd_from_date(29, 2, 2000)), SolarDate::new(2000, 2, 29));
}

#[test]
fn stem_branch_and_zodiac_laws() {
    for y in 1800..2200 {
        assert_eq!(get_stem_branch(y + 60), get_stem_branch(y));
        assert_eq!(get_zodiac(y + 12), get_zodiac(y));
        assert_eq!(get_stem_branch(y).branch.zodiac(), get_zodiac(y));
    }
    assert_eq!(get_zodiac(1983), Zodiac::Pig);
    let sb = get_stem_branch(2025);
    assert_eq!(sb.vietnamese(), "Ất Tỵ");
    assert_eq!(sb.element(), Element::Wood);
    assert_eq!(sb.yin_yang(), YinYang::Yin);
    assert_eq!(HeavenlyStem::Nham.element().vietnamese(), "Thủy");
    assert_eq!(YinYang::Yang.vietnamese(), "Dương");
    assert_eq!(Zodiac::from_index(25), Zodiac::Ox);
    assert_eq!(Zodiac::from_lunar_year(2024).vietnamese(), "Thìn");
}

#[test]
fn solar_date_validation() {
    assert_eq!(validate_solar_date(2024, 2, 29), Ok(()));
    assert_eq!(validate_solar_date(1900, 2, 29), Err(LunarError::InvalidDate(1900, 2, 29)));
    assert_eq!(validate_solar_date(2000, 2, 29), Ok(()));
    assert_eq!(validate_solar_date(2025, 4, 31), Err(LunarError::InvalidDate(2025, 4, 31)));
    assert_eq!(validate_solar_date(2025, 0, 1), Err(LunarError::InvalidDate(2025, 0, 1)));
    assert_eq!(validate_solar_date(2025, 1, 0), Err(LunarError::InvalidDate(2025, 1, 0)));
    assert_eq!(validate_solar_date(2101, 1, 1), Err(LunarError::YearOutOfRange(2101)));
    assert!(is_leap_year(2000) && !is_leap_year(1900) && is_leap_year(2024));
}

#[test]
fn error_codes_and_messages() {
    assert_eq!(LunarError::InvalidDate(1, 2, 3).code(), 1);
    assert_eq!(LunarError::YearOutOfRange(1).code(), 2);
    assert_eq!(LunarError::InvalidLunarMonth(1).code(), 3);
    assert_eq!(LunarError::InvalidLunarDay(1).code(), 4);
    assert_eq!(LunarError::LeapMonthError.code(), 5);
    assert_eq!(LunarError::NewMoonError.code(), 6);
    assert_eq!(LunarError::SolarTermError.code(), 7);
    assert_eq!(LunarError::InvalidDate(2023, 2, 29).to_string(), "invalid date: 2023-2-29");
    assert_eq!(
        LunarError::YearOutOfRange(-5).to_string(),
        "year out of supported range (1900-2100): -5"
    );
    assert_eq!(
        LunarError::LeapMonthError.to_string(),
        "requested leap month does not exist in that year"
    );
}

#[test]
fn text_forms() {
    assert_eq!(SolarDate::new(2025, 1, 5).to_string(), "2025-01-05");
    assert_eq!(SolarDate::new(-5, 12, 31).to_string(), "-005-12-31");
    assert_eq!(SolarDate::new(12345, 1, 1).to_string(), "12345-01-01");
    assert_eq!(JieQiName::from_longitude_index(21), JieQiName::LapXuan);
    assert_eq!(JieQiName::from_longitude_index(24 + 18).vietnamese(), "Đông Chí");
    assert_eq!(
        time_of_day_from_seconds(3 * 3600 + 25 * 60 + 7),
        TimeOfDay { hour: 3, minute: 25, second: 7 }
    );
}
