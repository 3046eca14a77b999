use vstd::prelude::*;

verus! {

/// 12 con giáp.
#[derive(Debug, Clone, Copy, PartialEq, Eq, Hash, Structural)]
pub enum Zodiac {
    Rat,
    Ox,
    Tiger,
    Rabbit,
    Dragon,
    Snake,
    Horse,
    Goat,
    Monkey,
    Rooster,
    Dog,
    Pig,
}

/// 10 can.
#[derive(Debug, Clone, Copy, PartialEq, Eq, Hash, Structural)]
pub enum HeavenlyStem {
    Giap,
    At,
    Binh,
    Dinh,
    Mau,
    Ky,
    Canh,
    Tan,
    Nham,
    Quy,
}

/// 12 chi.
#[derive(Debug, Clone, Copy, PartialEq, Eq, Hash, Structural)]
pub enum EarthlyBranch {
    Ty,
    Suu,
    Dan,
    Mao,
    Thin,
    Ty2,
    Ngo,
    Mui,
    Than,
    Dau,
    Tuat,
    Hoi,
}

/// Ngũ hành.
#[derive(Debug, Clone, Copy, PartialEq, Eq, Hash, Structural)]
pub enum Element {
    Wood,
    Fire,
    Earth,
    Metal,
    Water,
}

/// Âm / Dương.
#[derive(Debug, Clone, Copy, PartialEq, Eq, Hash, Structural)]
pub enum YinYang {
    Yang,
    Yin,
}

/// Can-chi pair.
#[derive(Debug, Clone, Copy, PartialEq, Eq, Hash, Structural)]
pub struct StemBranch {
    pub stem: HeavenlyStem,
    pub branch: EarthlyBranch,
}

// ---------------------------------------------------------------------------
// Specifications
// ---------------------------------------------------------------------------

/// The zodiac animal at position `i` (0 = Rat) of the 12-year cycle.
pub open spec fn zodiac_at(i: int) -> Zodiac {
    let i = i % 12;
    if i == 0 {
        Zodiac::Rat
    } else if i == 1 {
        Zodiac::Ox
    } else if i == 2 {
        Zodiac::Tiger
    } else if i == 3 {
        Zodiac::Rabbit
    } else if i == 4 {
        Zodiac::Dragon
    } else if i == 5 {
        Zodiac::Snake
    } else if i == 6 {
        Zodiac::Horse
    } else if i == 7 {
        Zodiac::Goat
    } else if i == 8 {
        Zodiac::Monkey
    } else if i == 9 {
        Zodiac::Rooster
    } else if i == 10 {
        Zodiac::Dog
    } else {
        Zodiac::Pig
    }
}

/// The heavenly stem at position `i` (0 = Giáp) of the 10-year cycle.
pub open spec fn stem_at(i: int) -> HeavenlyStem {
    let i = i % 10;
    if i == 0 {
        HeavenlyStem::Giap
    } else if i == 1 {
        HeavenlyStem::At
    } else if i == 2 {
        HeavenlyStem::Binh
    } else if i == 3 {
        HeavenlyStem::Dinh
    } else if i == 4 {
        HeavenlyStem::Mau
    } else if i == 5 {
        HeavenlyStem::Ky
    } else if i == 6 {
        HeavenlyStem::Canh
    } else if i == 7 {
        HeavenlyStem::Tan
    } else if i == 8 {
        HeavenlyStem::Nham
    } else {
        HeavenlyStem::Quy
    }
}

/// The earthly branch at position `i` (0 = Tý) of the 12-year cycle.
pub open spec fn branch_at(i: int) -> EarthlyBranch {
    let i = i % 12;
    if i == 0 {
        EarthlyBranch::Ty
    } else if i == 1 {
        EarthlyBranch::Suu
    } else if i == 2 {
        EarthlyBranch::Dan
    } else if i == 3 {
        EarthlyBranch::Mao
    } else if i == 4 {
        EarthlyBranch::Thin
    } else if i == 5 {
        EarthlyBranch::Ty2
    } else if i == 6 {
        EarthlyBranch::Ngo
    } else if i == 7 {
        EarthlyBranch::Mui
    } else if i == 8 {
        EarthlyBranch::Than
    } else if i == 9 {
        EarthlyBranch::Dau
    } else if i == 10 {
        EarthlyBranch::Tuat
    } else {
        EarthlyBranch::Hoi
    }
}

/// Position of a branch in its cycle (Tý = 0).
pub open spec fn branch_index(b: EarthlyBranch) -> int {
    match b {
        EarthlyBranch::Ty => 0,
        EarthlyBranch::Suu => 1,
        EarthlyBranch::Dan => 2,
        EarthlyBranch::Mao => 3,
        EarthlyBranch::Thin => 4,
        EarthlyBranch::Ty2 => 5,
        EarthlyBranch::Ngo => 6,
        EarthlyBranch::Mui => 7,
        EarthlyBranch::Than => 8,
        EarthlyBranch::Dau => 9,
        EarthlyBranch::Tuat => 10,
        EarthlyBranch::Hoi => 11,
    }
}

/// Zodiac animal of a lunar year: 1984 is the year of the Rat.
pub open spec fn zodiac_of_year(year: int) -> Zodiac {
    zodiac_at(year - 1984)
}

/// Can-chi of a lunar year: 1984 is Giáp Tý.
pub open spec fn stem_branch_of_year(year: int) -> StemBranch {
    let i = (year - 1984) % 60;
    StemBranch { stem: stem_at(i), branch: branch_at(i) }
}

/// Element of a heavenly stem: two consecutive stems per element.
pub open spec fn element_of_stem(s: HeavenlyStem) -> Element {
    match s {
        HeavenlyStem::Giap | HeavenlyStem::At => Element::Wood,
        HeavenlyStem::Binh | HeavenlyStem::Dinh => Element::Fire,
        HeavenlyStem::Mau | HeavenlyStem::Ky => Element::Earth,
        HeavenlyStem::Canh | HeavenlyStem::Tan => Element::Metal,
        HeavenlyStem::Nham | HeavenlyStem::Quy => Element::Water,
    }
}

/// Polarity of a heavenly stem: the stems alternate, starting with yang.
pub open spec fn yin_yang_of_stem(s: HeavenlyStem) -> YinYang {
    match s {
        HeavenlyStem::Giap | HeavenlyStem::Binh | HeavenlyStem::Mau | HeavenlyStem::Canh
        | HeavenlyStem::Nham => YinYang::Yang,
        _ => YinYang::Yin,
    }
}

pub open spec fn zodiac_name(z: Zodiac) -> Seq<char> {
    match z {
        Zodiac::Rat => "Tý"@,
        Zodiac::Ox => "Sửu"@,
        Zodiac::Tiger => "Dần"@,
        Zodiac::Rabbit => "Mão"@,
        Zodiac::Dragon => "Thìn"@,
        Zodiac::Snake => "Tỵ"@,
        Zodiac::Horse => "Ngọ"@,
        Zodiac::Goat => "Mùi"@,
        Zodiac::Monkey => "Thân"@,
        Zodiac::Rooster => "Dậu"@,
        Zodiac::Dog => "Tuất"@,
        Zodiac::Pig => "Hợi"@,
    }
}

pub open spec fn stem_name(s: HeavenlyStem) -> Seq<char> {
    match s {
        HeavenlyStem::Giap => "Giáp"@,
        HeavenlyStem::At => "Ất"@,
        HeavenlyStem::Binh => "Bính"@,
        HeavenlyStem::Dinh => "Đinh"@,
        HeavenlyStem::Mau => "Mậu"@,
        HeavenlyStem::Ky => "Kỷ"@,
        HeavenlyStem::Canh => "Canh"@,
        HeavenlyStem::Tan => "Tân"@,
        HeavenlyStem::Nham => "Nhâm"@,
        HeavenlyStem::Quy => "Quý"@,
    }
}

pub open spec fn branch_name(b: EarthlyBranch) -> Seq<char> {
    match b {
        EarthlyBranch::Ty => "Tý"@,
        EarthlyBranch::Suu => "Sửu"@,
        EarthlyBranch::Dan => "Dần"@,
        EarthlyBranch::Mao => "Mão"@,
        EarthlyBranch::Thin => "Thìn"@,
        EarthlyBranch::Ty2 => "Tỵ"@,
        EarthlyBranch::Ngo => "Ngọ"@,
        EarthlyBranch::Mui => "Mùi"@,
        EarthlyBranch::Than => "Thân"@,
        EarthlyBranch::Dau => "Dậu"@,
        EarthlyBranch::Tuat => "Tuất"@,
        EarthlyBranch::Hoi => "Hợi"@,
    }
}

pub open spec fn element_name(e: Element) -> Seq<char> {
    match e {
        Element::Wood => "Mộc"@,
        Element::Fire => "Hỏa"@,
        Element::Earth => "Thổ"@,
        Element::Metal => "Kim"@,
        Element::Water => "Thủy"@,
    }
}

pub open spec fn yin_yang_name(y: YinYang) -> Seq<char> {
    match y {
        YinYang::Yang => "Dương"@,
        YinYang::Yin => "Âm"@,
    }
}

/// "Stem Branch", e.g. "Giáp Tý".
pub open spec fn stem_branch_name(sb: StemBranch) -> Seq<char> {
    stem_name(sb.stem) + " "@ + branch_name(sb.branch)
}

/// The year difference from 1984 can be formed without `i32` overflow.
pub open spec fn year_offset_in_range(year: int) -> bool {
    year >= i32::MIN + 1984
}

// ---------------------------------------------------------------------------
// Executable code
// ---------------------------------------------------------------------------

impl Zodiac {
    pub fn vietnamese(&self) -> (s: &'static str)
        ensures
            s@ == zodiac_name(*self),
    {
        match self {
            Zodiac::Rat => "Tý",
            Zodiac::Ox => "Sửu",
            Zodiac::Tiger => "Dần",
            Zodiac::Rabbit => "Mão",
            Zodiac::Dragon => "Thìn",
            Zodiac::Snake => "Tỵ",
            Zodiac::Horse => "Ngọ",
            Zodiac::Goat => "Mùi",
            Zodiac::Monkey => "Thân",
            Zodiac::Rooster => "Dậu",
            Zodiac::Dog => "Tuất",
            Zodiac::Pig => "Hợi",
        }
    }

    pub fn from_lunar_year(year: i32) -> (z: Zodiac)
        requires
            year_offset_in_range(year as int),
        ensures
            z == zodiac_of_year(year as int),
    {
        let i = (year as i64 - 1984) % 12;
        let i = if i < 0 {
            i + 12
        } else {
            i
        };
        Self::from_index(i as u8)
    }

    pub fn from_index(idx: u8) -> (z: Zodiac)
        ensures
            z == zodiac_at(idx as int),
    {
        match idx % 12 {
            0 => Zodiac::Rat,
            1 => Zodiac::Ox,
            2 => Zodiac::Tiger,
            3 => Zodiac::Rabbit,
            4 => Zodiac::Dragon,
            5 => Zodiac::Snake,
            6 => Zodiac::Horse,
            7 => Zodiac::Goat,
            8 => Zodiac::Monkey,
            9 => Zodiac::Rooster,
            10 => Zodiac::Dog,
            _ => Zodiac::Pig,
        }
    }
}

impl HeavenlyStem {
    pub fn from_index(idx: u8) -> (s: HeavenlyStem)
        ensures
            s == stem_at(idx as int),
    {
        match idx % 10 {
            0 => HeavenlyStem::Giap,
            1 => HeavenlyStem::At,
            2 => HeavenlyStem::Binh,
            3 => HeavenlyStem::Dinh,
            4 => HeavenlyStem::Mau,
            5 => HeavenlyStem::Ky,
            6 => HeavenlyStem::Canh,
            7 => HeavenlyStem::Tan,
            8 => HeavenlyStem::Nham,
            _ => HeavenlyStem::Quy,
        }
    }

    pub fn vietnamese(&self) -> (s: &'static str)
        ensures
            s@ == stem_name(*self),
    {
        match self {
            HeavenlyStem::Giap => "Giáp",
            HeavenlyStem::At => "Ất",
            HeavenlyStem::Binh => "Bính",
            HeavenlyStem::Dinh => "Đinh",
            HeavenlyStem::Mau => "Mậu",
            HeavenlyStem::Ky => "Kỷ",
            HeavenlyStem::Canh => "Canh",
            HeavenlyStem::Tan => "Tân",
            HeavenlyStem::Nham => "Nhâm",
            HeavenlyStem::Quy => "Quý",
        }
    }

    pub fn element(&self) -> (e: Element)
        ensures
            e == element_of_stem(*self),
    {
        match self {
            HeavenlyStem::Giap | HeavenlyStem::At => Element::Wood,
            HeavenlyStem::Binh | HeavenlyStem::Dinh => Element::Fire,
            HeavenlyStem::Mau | HeavenlyStem::Ky => Element::Earth,
            HeavenlyStem::Canh | HeavenlyStem::Tan => Element::Metal,
            HeavenlyStem::Nham | HeavenlyStem::Quy => Element::Water,
        }
    }

    pub fn yin_yang(&self) -> (y: YinYang)
        ensures
            y == yin_yang_of_stem(*self),
    {
        match self {
            HeavenlyStem::Giap | HeavenlyStem::Binh | HeavenlyStem::Mau | HeavenlyStem::Canh
            | HeavenlyStem::Nham => YinYang::Yang,
            _ => YinYang::Yin,
        }
    }
}

impl EarthlyBranch {
    pub fn from_index(idx: u8) -> (b: EarthlyBranch)
        ensures
            b == branch_at(idx as int),
    {
        match idx % 12 {
            0 => EarthlyBranch::Ty,
            1 => EarthlyBranch::Suu,
            2 => EarthlyBranch::Dan,
            3 => EarthlyBranch::Mao,
            4 => EarthlyBranch::Thin,
            5 => EarthlyBranch::Ty2,
            6 => EarthlyBranch::Ngo,
            7 => EarthlyBranch::Mui,
            8 => EarthlyBranch::Than,
            9 => EarthlyBranch::Dau,
            10 => EarthlyBranch::Tuat,
            _ => EarthlyBranch::Hoi,
        }
    }

    pub fn vietnamese(&self) -> (s: &'static str)
        ensures
            s@ == branch_name(*self),
    {
        match self {
            EarthlyBranch::Ty => "Tý",
            EarthlyBranch::Suu => "Sửu",
            EarthlyBranch::Dan => "Dần",
            EarthlyBranch::Mao => "Mão",
            EarthlyBranch::Thin => "Thìn",
            EarthlyBranch::Ty2 => "Tỵ",
            EarthlyBranch::Ngo => "Ngọ",
            EarthlyBranch::Mui => "Mùi",
            EarthlyBranch::Than => "Thân",
            EarthlyBranch::Dau => "Dậu",
            EarthlyBranch::Tuat => "Tuất",
            EarthlyBranch::Hoi => "Hợi",
        }
    }

    /// The zodiac animal that shares this branch's position in the cycle.
    pub fn zodiac(&self) -> (z: Zodiac)
        ensures
            z == zodiac_at(branch_index(*self)),
    {
        let i: u8 = match self {
            EarthlyBranch::Ty => 0,
            EarthlyBranch::Suu => 1,
            EarthlyBranch::Dan => 2,
            EarthlyBranch::Mao => 3,
            EarthlyBranch::Thin => 4,
            EarthlyBranch::Ty2 => 5,
            EarthlyBranch::Ngo => 6,
            EarthlyBranch::Mui => 7,
            EarthlyBranch::Than => 8,
            EarthlyBranch::Dau => 9,
            EarthlyBranch::Tuat => 10,
            EarthlyBranch::Hoi => 11,
        };
        Zodiac::from_index(i)
    }
}

impl Element {
    pub fn vietnamese(&self) -> (s: &'static str)
        ensures
            s@ == element_name(*self),
    {
        match self {
            Element::Wood => "Mộc",
            Element::Fire => "Hỏa",
            Element::Earth => "Thổ",
            Element::Metal => "Kim",
            Element::Water => "Thủy",
        }
    }
}

impl YinYang {
    pub fn vietnamese(&self) -> (s: &'static str)
        ensures
            s@ == yin_yang_name(*self),
    {
        match self {
            YinYang::Yang => "Dương",
            YinYang::Yin => "Âm",
        }
    }
}

impl StemBranch {
    pub fn vietnamese(&self) -> (s: String)
        ensures
            s@ == stem_branch_name(*self),
    {
        let mut s = String::from_str(self.stem.vietnamese());
        s.append(" ");
        s.append(self.branch.vietnamese());
        s
    }

    pub fn element(&self) -> (e: Element)
        ensures
            e == element_of_stem(self.stem),
    {
        self.stem.element()
    }

    pub fn yin_yang(&self) -> (y: YinYang)
        ensures
            y == yin_yang_of_stem(self.stem),
    {
        self.stem.yin_yang()
    }
}

/// Zodiac animal of a lunar year (1984 = Tý).
pub fn get_zodiac(lunar_year: i32) -> (z: Zodiac)
    requires
        year_offset_in_range(lunar_year as int),
    ensures
        z == zodiac_of_year(lunar_year as int),
{
    Zodiac::from_lunar_year(lunar_year)
}

/// Can-chi of a lunar year (1984 = Giáp Tý).
pub fn get_stem_branch(lunar_year: i32) -> (sb: StemBranch)
    requires
        year_offset_in_range(lunar_year as int),
    ensures
        sb == stem_branch_of_year(lunar_year as int),
{
    let i = (lunar_year as i64 - 1984) % 60;
    let i = if i < 0 {
        i + 60
    } else {
        i
    };
    let cycle_idx = i as u8;
    assert(cycle_idx == (lunar_year - 1984) % 60);
    let stem = HeavenlyStem::from_index(cycle_idx % 10);
    let branch = EarthlyBranch::from_index(cycle_idx % 12);
    assert((cycle_idx % 10) as int % 10 == cycle_idx as int % 10);
    assert((cycle_idx % 12) as int % 12 == cycle_idx as int % 12);
    StemBranch { stem, branch }
}

// ---------------------------------------------------------------------------
// Laws of the sexagenary cycle
// ---------------------------------------------------------------------------

/// The can-chi of a year repeats every 60 years.
#[verifier::spinoff_prover]
pub proof fn lemma_stem_branch_period(year: int)
    ensures
        stem_branch_of_year(year + 60) == stem_branch_of_year(year),
{
    let a = year + 60 - 1984;
    let b = year - 1984;
    assert(a % 60 == b % 60) by {
        vstd::arithmetic::div_mod::lemma_mod_add_multiples_vanish(b, 60);
    }
}

/// The zodiac animal of a year repeats every 12 years.
pub proof fn lemma_zodiac_period(year: int)
    ensures
        zodiac_of_year(year + 12) == zodiac_of_year(year),
{
    assert((year + 12 - 1984) % 12 == (year - 1984) % 12);
}

/// The zodiac animal of a year is the animal of the year's earthly branch.
pub proof fn lemma_zodiac_is_branch_animal(year: int)
    ensures
        zodiac_at(branch_index(stem_branch_of_year(year).branch)) == zodiac_of_year(year),
{
    let i = (year - 1984) % 60;
    assert(i % 12 == (year - 1984) % 12) by (nonlinear_arith)
        requires
            i == (year - 1984) % 60,
    ;
}

/// The ten heavenly stems in order from Giáp, with their names; the elements
/// run Wood, Fire, Earth, Metal, Water (Mộc, Hỏa, Thổ, Kim, Thủy), two stems
/// each, and the polarities alternate from yang (Dương, then Âm).
pub proof fn lemma_stem_cycle(i: int)
    ensures
        ({
            let k = i % 10;
            let s = stem_at(i);
            &&& stem_name(s) == seq![
                "Giáp"@,
                "Ất"@,
                "Bính"@,
                "Đinh"@,
                "Mậu"@,
                "Kỷ"@,
                "Canh"@,
                "Tân"@,
                "Nhâm"@,
                "Quý"@,
            ][k]
            &&& element_of_stem(s) == seq![
                Element::Wood,
                Element::Fire,
                Element::Earth,
                Element::Metal,
                Element::Water,
            ][k / 2]
            &&& element_name(element_of_stem(s)) == seq![
                "Mộc"@,
                "Hỏa"@,
                "Thổ"@,
                "Kim"@,
                "Thủy"@,
            ][k / 2]
            &&& yin_yang_of_stem(s) == (if k % 2 == 0 {
                YinYang::Yang
            } else {
                YinYang::Yin
            })
            &&& yin_yang_name(yin_yang_of_stem(s)) == (if k % 2 == 0 {
                "Dương"@
            } else {
                "Âm"@
            })
        }),
{
    let k = i % 10;
    if k == 0 {
    } else if k == 1 {
    } else if k == 2 {
    } else if k == 3 {
    } else if k == 4 {
    } else if k == 5 {
    } else if k == 6 {
    } else if k == 7 {
    } else if k == 8 {
    } else {
        assert(k == 9);
    }
}

/// The twelve earthly branches in order from Tý, with their names, and the
/// animals of the zodiac in the same order from the Rat.
pub proof fn lemma_branch_cycle(i: int)
    ensures
        ({
            let k = i % 12;
            &&& branch_index(branch_at(i)) == k
            &&& branch_name(branch_at(i)) == seq![
                "Tý"@,
                "Sửu"@,
                "Dần"@,
                "Mão"@,
                "Thìn"@,
                "Tỵ"@,
                "Ngọ"@,
                "Mùi"@,
                "Thân"@,
                "Dậu"@,
                "Tuất"@,
                "Hợi"@,
            ][k]
            &&& zodiac_at(i) == seq![
                Zodiac::Rat,
                Zodiac::Ox,
                Zodiac::Tiger,
                Zodiac::Rabbit,
                Zodiac::Dragon,
                Zodiac::Snake,
                Zodiac::Horse,
                Zodiac::Goat,
                Zodiac::Monkey,
                Zodiac::Rooster,
                Zodiac::Dog,
                Zodiac::Pig,
            ][k]
            &&& zodiac_name(zodiac_at(i)) == branch_name(branch_at(i))
        }),
{
    let k = i % 12;
    if k == 0 {
    } else if k == 1 {
    } else if k == 2 {
    } else if k == 3 {
    } else if k == 4 {
    } else if k == 5 {
    } else if k == 6 {
    } else if k == 7 {
    } else if k == 8 {
    } else if k == 9 {
    } else if k == 10 {
    } else {
        assert(k == 11);
    }
}

/// The can-chi of a lunar year counts from Giáp Tý in 1984: the stem is the
/// `(year - 1984) mod 10`-th and the branch the `(year - 1984) mod 12`-th,
/// the zodiac animal is that branch's animal, and the year's element is the
/// `((year - 1984) mod 10) / 2`-th of Wood, Fire, Earth, Metal, Water.
pub proof fn lemma_year_cycle(year: int)
    ensures
        ({
            let sb = stem_branch_of_year(year);
            let s = (year - 1984) % 10;
            let b = (year - 1984) % 12;
            &&& sb.stem == stem_at(s)
            &&& sb.branch == branch_at(b)
            &&& branch_index(sb.branch) == b
            &&& zodiac_of_year(year) == zodiac_at(b)
            &&& element_of_stem(sb.stem) == seq![
                Element::Wood,
                Element::Fire,
                Element::Earth,
                Element::Metal,
                Element::Water,
            ][s / 2]
            &&& yin_yang_of_stem(sb.stem) == (if s % 2 == 0 {
                YinYang::Yang
            } else {
                YinYang::Yin
            })
        }),
{
    let i = (year - 1984) % 60;
    assert(i % 10 == (year - 1984) % 10 && i % 12 == (year - 1984) % 12) by (nonlinear_arith)
        requires
            i == (year - 1984) % 60,
    ;
    assert(stem_at(i) == stem_at((year - 1984) % 10));
    assert(branch_at(i) == branch_at((year - 1984) % 12));
    lemma_stem_cycle((year - 1984) % 10);
    lemma_branch_cycle((year - 1984) % 12);
}

} // verus!
