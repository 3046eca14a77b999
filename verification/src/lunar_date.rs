use vstd::prelude::*;

use crate::cycle::{
    branch_name, get_stem_branch, get_zodiac, stem_branch_name, stem_branch_of_year, stem_name,
    year_offset_in_range,
    zodiac_of_year, StemBranch, Zodiac,
};
use crate::text::{decimal, push_decimal, push_zero_padded, zero_padded};

verus! {

/// Lunar date with year-level Vietnamese metadata.
#[derive(Debug, Clone, PartialEq, Eq, Structural)]
pub struct LunarDate {
    pub year: i32,
    pub month: u8,
    pub day: u8,
    pub leap: bool,
    pub zodiac: Zodiac,
    pub stem_branch: StemBranch,
}

/// The lunar date with the given fields, its zodiac and can-chi taken from its year.
pub open spec fn lunar_date(year: i32, month: u8, day: u8, leap: bool) -> LunarDate {
    LunarDate {
        year,
        month,
        day,
        leap,
        zodiac: zodiac_of_year(year as int),
        stem_branch: stem_branch_of_year(year as int),
    }
}

/// Tết Nguyên Đán: days 1 to 3 of the first month, not a leap month.
pub open spec fn is_tet_spec(d: LunarDate) -> bool {
    d.month == 1 && 1 <= d.day <= 3 && !d.leap
}

/// Build a lunar date, filling in its zodiac and can-chi.
pub fn lunar_date_parts(year: i32, month: u8, day: u8, leap: bool) -> (d: LunarDate)
    requires
        year_offset_in_range(year as int),
    ensures
        d == lunar_date(year, month, day, leap),
{
    LunarDate {
        year,
        month,
        day,
        leap,
        zodiac: get_zodiac(year),
        stem_branch: get_stem_branch(year),
    }
}

/// Name of the day of a lunar month: "Rằm" (15), "Mùng d" (up to 10), "Ngày d".
pub open spec fn lunar_day_name(day: int) -> Seq<char> {
    if day == 15 {
        "Rằm"@
    } else if day <= 10 {
        "Mùng "@ + decimal(day)
    } else {
        "Ngày "@ + decimal(day)
    }
}

/// Name of a lunar month: "Tết" during Tết, else "Tháng m", marked "(nhuận)" when leap.
pub open spec fn lunar_month_name(d: LunarDate) -> Seq<char> {
    if is_tet_spec(d) {
        "Tết"@
    } else if d.leap {
        "Tháng "@ + decimal(d.month as int) + " (nhuận)"@
    } else {
        "Tháng "@ + decimal(d.month as int)
    }
}

/// Display name such as "Mùng 1 Tết Ất Tỵ".
pub open spec fn vietnamese_name_spec(d: LunarDate) -> Seq<char> {
    lunar_day_name(d.day as int) + " "@ + lunar_month_name(d) + " "@ + stem_branch_name(
        d.stem_branch,
    )
}

/// `YYYY-MM-DD`, followed by `L` for a leap month.
pub open spec fn lunar_date_text(d: LunarDate) -> Seq<char> {
    zero_padded(d.year as int, 4) + "-"@ + zero_padded(d.month as int, 2) + "-"@ + zero_padded(
        d.day as int,
        2,
    ) + (if d.leap {
        "L"@
    } else {
        ""@
    })
}

impl LunarDate {
    /// Display name such as `"Mùng 1 Tết Ất Tỵ"`.
    pub fn vietnamese_name(&self) -> (s: String)
        ensures
            s@ == vietnamese_name_spec(*self),
    {
        let mut s = String::new();
        if self.day == 15 {
            s.append("Rằm");
        } else if self.day <= 10 {
            s.append("Mùng ");
            push_decimal(&mut s, self.day as i64);
        } else {
            s.append("Ngày ");
            push_decimal(&mut s, self.day as i64);
        }
        let ghost s1 = s@;
        assert(s1 == lunar_day_name(self.day as int));
        s.append(" ");
        if self.is_tet() {
            s.append("Tết");
        } else {
            s.append("Tháng ");
            push_decimal(&mut s, self.month as i64);
            if self.leap {
                s.append(" (nhuận)");
            }
        }
        assert(s@ =~= s1 + " "@ + lunar_month_name(*self));
        let ghost s2 = s@;
        s.append(" ");
        let sb = self.stem_branch.vietnamese();
        s.append(sb.as_str());
        assert(s@ =~= s2 + " "@ + stem_branch_name(self.stem_branch));
        s
    }

    /// The date as `YYYY-MM-DD`, followed by `L` for a leap month.
    pub fn to_string(&self) -> (s: String)
        ensures
            s@ == lunar_date_text(*self),
    {
        let mut s = String::new();
        self.push_text(&mut s);
        s
    }

    pub fn push_text(&self, s: &mut String)
        ensures
            final(s)@ == old(s)@ + lunar_date_text(*self),
    {
        let ghost s0 = s@;
        push_zero_padded(s, self.year as i64, 4);
        s.append("-");
        push_zero_padded(s, self.month as i64, 2);
        s.append("-");
        push_zero_padded(s, self.day as i64, 2);
        if self.leap {
            s.append("L");
        } else {
            s.append("");
        }
        assert(s@ =~= s0 + lunar_date_text(*self));
    }

    /// Tết Nguyên Đán (1–3/1 âm lịch, not a leap month).
    pub fn is_tet(&self) -> (r: bool)
        ensures
            r == is_tet_spec(*self),
    {
        self.month == 1 && 1 <= self.day && self.day <= 3 && !self.leap
    }

    pub fn is_full_moon(&self) -> (r: bool)
        ensures
            r == (self.day == 15),
    {
        self.day == 15
    }

    pub fn is_new_moon(&self) -> (r: bool)
        ensures
            r == (self.day == 1),
    {
        self.day == 1
    }
}

/// The Vietnamese name of a lunar date is the day, the month and the year's
/// can-chi, separated by spaces. The day is "Rằm" on the 15th, "Mùng d" on days
/// up to the 10th and "Ngày d" after it; the month is "Tết" on the first three
/// days of month 1 (not leap), else "Tháng m", followed by " (nhuận)" for a
/// leap month.
pub proof fn lemma_vietnamese_name_parts(l: LunarDate)
    ensures
        ({
            let month_part = if l.month == 1 && 1 <= l.day <= 3 && !l.leap {
                "Tết"@
            } else if l.leap {
                "Tháng "@ + decimal(l.month as int) + " (nhuận)"@
            } else {
                "Tháng "@ + decimal(l.month as int)
            };
            let rest = " "@ + month_part + " "@ + stem_name(l.stem_branch.stem) + " "@ + branch_name(
                l.stem_branch.branch,
            );
            &&& l.day == 15 ==> vietnamese_name_spec(l) == "Rằm"@ + rest
            &&& l.day <= 10 ==> vietnamese_name_spec(l) == "Mùng "@ + decimal(l.day as int) + rest
            &&& (l.day > 10 && l.day != 15) ==> vietnamese_name_spec(l) == "Ngày "@ + decimal(l.day as int)
                + rest
            &&& is_tet_spec(l) == (l.month == 1 && 1 <= l.day <= 3 && !l.leap)
        }),
{
    let month_part = lunar_month_name(l);
    let sb = stem_branch_name(l.stem_branch);
    let tail = stem_name(l.stem_branch.stem) + " "@ + branch_name(l.stem_branch.branch);
    assert(sb == tail);
    let d = lunar_day_name(l.day as int);
    assert(vietnamese_name_spec(l) == d + " "@ + month_part + " "@ + sb);
    assert(d + " "@ + month_part + " "@ + sb =~= d + (" "@ + month_part + " "@ + tail));
    if l.day <= 10 && l.day != 15 {
        assert(d == "Mùng "@ + decimal(l.day as int));
        assert(("Mùng "@ + decimal(l.day as int)) + (" "@ + month_part + " "@ + tail) =~= "Mùng "@
            + decimal(l.day as int) + " "@ + month_part + " "@ + tail);
    }
    if l.day > 10 && l.day != 15 {
        assert(("Ngày "@ + decimal(l.day as int)) + (" "@ + month_part + " "@ + tail) =~= "Ngày "@
            + decimal(l.day as int) + " "@ + month_part + " "@ + tail);
    }
    if l.day == 15 {
        assert("Rằm"@ + (" "@ + month_part + " "@ + tail) =~= "Rằm"@ + " "@ + month_part + " "@ + tail);
    }
}

} // verus!
