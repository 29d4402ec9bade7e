//! Chinese calendar labels for the calendar grid.
//!
//! A day cell shows the lunar day; the first day of a lunar month shows the
//! name of the month instead; festivals and solar terms come before both.

use vstd::prelude::*;

use crate::text::opt_view;

verus! {

/// The labels of one Gregorian date.
#[derive(Debug, PartialEq, Eq)]
pub struct LunarInfo {
    /// Lunar day name, such as `初一` or `三十`.
    pub day_name: String,
    /// Lunar month name, such as `正月` or `闰四月`, on the first day of a
    /// lunar month only.
    pub month_name: Option<String>,
    /// Festival name, such as `春节` or `国庆节`.
    pub festival: Option<String>,
    /// Solar term name, such as `立春`, on the first day of a term only.
    pub solar_term: Option<String>,
}

/// What a [`LunarInfo`] is.
pub struct LunarView {
    pub day_name: Seq<char>,
    pub month_name: Option<Seq<char>>,
    pub festival: Option<Seq<char>>,
    pub solar_term: Option<Seq<char>>,
}

impl View for LunarInfo {
    type V = LunarView;

    open spec fn view(&self) -> LunarView {
        LunarView {
            day_name: self.day_name@,
            month_name: opt_view(self.month_name),
            festival: opt_view(self.festival),
            solar_term: opt_view(self.solar_term),
        }
    }
}

impl LunarView {
    /// The one label shown: the festival, else the solar term, else the lunar
    /// month where it begins, else the lunar day.
    pub open spec fn label(self) -> Seq<char> {
        match self.festival {
            Some(s) => s,
            None => match self.solar_term {
                Some(s) => s,
                None => match self.month_name {
                    Some(s) => s,
                    None => self.day_name,
                },
            },
        }
    }
}

impl LunarInfo {
    /// The one label shown under the day number.
    pub fn label(&self) -> (r: &str)
        ensures
            r@ == self@.label(),
    {
        if let Some(s) = &self.festival {
            return s.as_str();
        }
        if let Some(s) = &self.solar_term {
            return s.as_str();
        }
        if let Some(s) = &self.month_name {
            return s.as_str();
        }
        self.day_name.as_str()
    }

    /// Whether the label is a festival or a solar term.
    pub fn highlighted(&self) -> (r: bool)
        ensures
            r == (self@.festival is Some || self@.solar_term is Some),
    {
        self.festival.is_some() || self.solar_term.is_some()
    }
}

/// The name of a lunar day, from `初一` for 1 to `三十` for 30. A day 0 counts as
/// the first; other numbers have no name.
pub open spec fn lunar_day_text(day: int) -> Seq<char> {
    if day <= 1 {
        "初一"@
    } else if day == 2 {
        "初二"@
    } else if day == 3 {
        "初三"@
    } else if day == 4 {
        "初四"@
    } else if day == 5 {
        "初五"@
    } else if day == 6 {
        "初六"@
    } else if day == 7 {
        "初七"@
    } else if day == 8 {
        "初八"@
    } else if day == 9 {
        "初九"@
    } else if day == 10 {
        "初十"@
    } else if day == 11 {
        "十一"@
    } else if day == 12 {
        "十二"@
    } else if day == 13 {
        "十三"@
    } else if day == 14 {
        "十四"@
    } else if day == 15 {
        "十五"@
    } else if day == 16 {
        "十六"@
    } else if day == 17 {
        "十七"@
    } else if day == 18 {
        "十八"@
    } else if day == 19 {
        "十九"@
    } else if day == 20 {
        "二十"@
    } else if day == 21 {
        "廿一"@
    } else if day == 22 {
        "廿二"@
    } else if day == 23 {
        "廿三"@
    } else if day == 24 {
        "廿四"@
    } else if day == 25 {
        "廿五"@
    } else if day == 26 {
        "廿六"@
    } else if day == 27 {
        "廿七"@
    } else if day == 28 {
        "廿八"@
    } else if day == 29 {
        "廿九"@
    } else if day == 30 {
        "三十"@
    } else {
        Seq::empty()
    }
}

/// The name of a lunar day.
pub fn lunar_day_name(day: usize) -> (r: String)
    ensures
        r@ == lunar_day_text(day as int),
{
    let name = match day {
        0 | 1 => "初一",
        2 => "初二",
        3 => "初三",
        4 => "初四",
        5 => "初五",
        6 => "初六",
        7 => "初七",
        8 => "初八",
        9 => "初九",
        10 => "初十",
        11 => "十一",
        12 => "十二",
        13 => "十三",
        14 => "十四",
        15 => "十五",
        16 => "十六",
        17 => "十七",
        18 => "十八",
        19 => "十九",
        20 => "二十",
        21 => "廿一",
        22 => "廿二",
        23 => "廿三",
        24 => "廿四",
        25 => "廿五",
        26 => "廿六",
        27 => "廿七",
        28 => "廿八",
        29 => "廿九",
        30 => "三十",
        _ => {
            let none = String::new();
            assert(none@ =~= Seq::<char>::empty());
            return none;
        },
    };
    name.to_owned()
}

/// The dates of the almanac: Julian until October 4, 1582, and Gregorian from
/// October 15, 1582.
pub open spec fn almanac_date(year: int, month: int, day: int) -> bool {
    let leap = if year < 1600 {
        year % 4 == 0
    } else {
        (year % 4 == 0 && year % 100 != 0) || year % 400 == 0
    };
    let days = if month == 2 {
        if leap {
            29
        } else {
            28int
        }
    } else if month == 4 || month == 6 || month == 9 || month == 11 {
        30
    } else {
        31
    };
    &&& 1 <= year <= 9999
    &&& 1 <= month <= 12
    &&& 1 <= day <= days
    &&& year == 1582 && month == 10 ==> day <= 4 || day >= 15
}

/// The first day of a month at whose end the almanac does not know the Chinese
/// calendar; 32 where it knows it all. In seven years of the first century its
/// lunar months do not reach so far.
pub open spec fn gap_start(year: int, month: int) -> int {
    if year == 10 {
        if month == 7 {
            29
        } else if month == 8 {
            28
        } else if month == 9 {
            26
        } else if month == 10 {
            26
        } else {
            32
        }
    } else if year == 13 {
        if month == 1 {
            30
        } else if month == 3 {
            30
        } else if month == 4 {
            28
        } else if month == 5 {
            28
        } else if month == 6 {
            26
        } else if month == 7 {
            26
        } else if month == 8 {
            25
        } else {
            32
        }
    } else if year == 15 {
        if month == 11 {
            29
        } else if month == 12 {
            29
        } else {
            32
        }
    } else if year == 16 {
        if month == 1 {
            27
        } else if month == 2 {
            26
        } else if month == 3 {
            27
        } else if month == 4 {
            25
        } else if month == 5 {
            25
        } else {
            32
        }
    } else if year == 18 {
        if month == 8 {
            29
        } else if month == 9 {
            28
        } else if month == 10 {
            28
        } else if month == 11 {
            26
        } else if month == 12 {
            26
        } else {
            32
        }
    } else if year == 19 {
        if month == 1 {
            24
        } else {
            32
        }
    } else if year == 21 {
        if month == 5 {
            30
        } else if month == 6 {
            28
        } else if month == 7 {
            28
        } else if month == 8 {
            26
        } else if month == 9 {
            25
        } else {
            32
        }
    } else {
        32
    }
}

/// The dates for which the almanac knows the Chinese calendar. At either end it
/// would have to look beyond its years.
pub open spec fn almanac_day(year: int, month: int, day: int) -> bool {
    &&& !(year == 1 && month == 1 && day < 9)
    &&& !(year == 9999 && month == 12)
    &&& day < gap_start(year, month)
}

/// The first day of a month at whose end the almanac has a gap.
fn first_gap(year: i32, month: u32) -> (r: u32)
    ensures
        r == gap_start(year as int, month as int),
{
    if year == 10 {
        if month == 7 {
            29
        } else if month == 8 {
            28
        } else if month == 9 {
            26
        } else if month == 10 {
            26
        } else {
            32
        }
    } else if year == 13 {
        if month == 1 {
            30
        } else if month == 3 {
            30
        } else if month == 4 {
            28
        } else if month == 5 {
            28
        } else if month == 6 {
            26
        } else if month == 7 {
            26
        } else if month == 8 {
            25
        } else {
            32
        }
    } else if year == 15 {
        if month == 11 {
            29
        } else if month == 12 {
            29
        } else {
            32
        }
    } else if year == 16 {
        if month == 1 {
            27
        } else if month == 2 {
            26
        } else if month == 3 {
            27
        } else if month == 4 {
            25
        } else if month == 5 {
            25
        } else {
            32
        }
    } else if year == 18 {
        if month == 8 {
            29
        } else if month == 9 {
            28
        } else if month == 10 {
            28
        } else if month == 11 {
            26
        } else if month == 12 {
            26
        } else {
            32
        }
    } else if year == 19 {
        if month == 1 {
            24
        } else {
            32
        }
    } else if year == 21 {
        if month == 5 {
            30
        } else if month == 6 {
            28
        } else if month == 7 {
            28
        } else if month == 8 {
            26
        } else if month == 9 {
            25
        } else {
            32
        }
    } else {
        32
    }
}

/// Whether the almanac knows the Chinese calendar of a date.
pub fn almanac_knows(year: i32, month: u32, day: u32) -> (r: bool)
    ensures
        r == almanac_day(year as int, month as int, day as int),
{
    !(year == 1 && month == 1 && day < 9) && !(year == 9999 && month == 12) && day < first_gap(
        year,
        month,
    )
}

/// Names the day of the lunar month that a date is.
pub uninterp spec fn lunar_day_of(year: int, month: int, day: int) -> usize;

/// Names the name of the lunar month that a date is in.
pub uninterp spec fn lunar_month_of(year: int, month: int, day: int) -> Seq<char>;

/// Names the traditional festival of a date.
pub uninterp spec fn lunar_festival_of(year: int, month: int, day: int) -> Option<Seq<char>>;

/// Names the modern festival of a date.
pub uninterp spec fn solar_festival_of(year: int, month: int, day: int) -> Option<Seq<char>>;

/// Names the solar term that a date is in, and the days since it began.
pub uninterp spec fn solar_term_of(year: int, month: int, day: int) -> (Seq<char>, usize);

/// `tyme4rs`'s `SolarDay::new` takes exactly the dates of the almanac. It stops
/// the program for a year outside 1 to 9999 or a month outside 1 to 12.
#[verifier::external_body]
fn is_almanac_date(year: i32, month: u32, day: u32) -> (r: bool)
    requires
        1 <= year <= 9999,
        1 <= month <= 12,
    ensures
        r == almanac_date(year as int, month as int, day as int),
{
    tyme4rs::tyme::solar::SolarDay::new(year as isize, month as usize, day as usize).is_ok()
}

/// `SolarDay::get_lunar_day`, and `LunarDay::get_day` of it: the day of the lunar
/// month depends on the date alone, and is at least 1, as `LunarDay::new` sees to.
#[verifier::external_body]
fn lunar_day(year: i32, month: u32, day: u32) -> (r: usize)
    requires
        almanac_date(year as int, month as int, day as int),
        almanac_day(year as int, month as int, day as int),
    ensures
        r == lunar_day_of(year as int, month as int, day as int),
        r >= 1,
{
    let solar = tyme4rs::tyme::solar::SolarDay::from_ymd(year as isize, month as usize, day as usize);
    solar.get_lunar_day().get_day()
}

/// `LunarDay::get_lunar_month`, and its name: the lunar month depends on the date alone.
#[verifier::external_body]
fn lunar_month(year: i32, month: u32, day: u32) -> (r: String)
    requires
        almanac_date(year as int, month as int, day as int),
        almanac_day(year as int, month as int, day as int),
    ensures
        r@ == lunar_month_of(year as int, month as int, day as int),
{
    let solar = tyme4rs::tyme::solar::SolarDay::from_ymd(year as isize, month as usize, day as usize);
    tyme4rs::tyme::Culture::get_name(&solar.get_lunar_day().get_lunar_month())
}

/// `LunarDay::get_festival`, and its name: the festival depends on the date alone.
#[verifier::external_body]
fn lunar_festival(year: i32, month: u32, day: u32) -> (r: Option<String>)
    requires
        almanac_date(year as int, month as int, day as int),
        almanac_day(year as int, month as int, day as int),
    ensures
        opt_view(r) == lunar_festival_of(year as int, month as int, day as int),
{
    let solar = tyme4rs::tyme::solar::SolarDay::from_ymd(year as isize, month as usize, day as usize);
    let festival = solar.get_lunar_day().get_festival();
    festival.map(|festival| tyme4rs::tyme::Culture::get_name(&festival))
}

/// `SolarDay::get_festival`, and its name: the festival depends on the date alone.
#[verifier::external_body]
fn solar_festival(year: i32, month: u32, day: u32) -> (r: Option<String>)
    requires
        almanac_date(year as int, month as int, day as int),
    ensures
        opt_view(r) == solar_festival_of(year as int, month as int, day as int),
{
    let solar = tyme4rs::tyme::solar::SolarDay::from_ymd(year as isize, month as usize, day as usize);
    solar.get_festival().map(|festival| tyme4rs::tyme::Culture::get_name(&festival))
}

/// `SolarDay::get_term_day`: the name of its term and its index in the term
/// depend on the date alone.
#[verifier::external_body]
fn solar_term(year: i32, month: u32, day: u32) -> (r: (String, usize))
    requires
        almanac_date(year as int, month as int, day as int),
        almanac_day(year as int, month as int, day as int),
    ensures
        (r.0@, r.1) == solar_term_of(year as int, month as int, day as int),
{
    let solar = tyme4rs::tyme::solar::SolarDay::from_ymd(year as isize, month as usize, day as usize);
    let term = solar.get_term_day();
    (tyme4rs::tyme::Culture::get_name(&term.get_solar_term()), term.get_day_index())
}

/// What the almanac says of a day.
#[derive(Debug)]
pub struct AlmanacDay {
    /// The day of the lunar month.
    pub lunar_day: usize,
    /// The name of the lunar month.
    pub lunar_month: String,
    pub lunar_festival: Option<String>,
    pub solar_festival: Option<String>,
    /// The name of the solar term.
    pub solar_term: String,
    /// The days since the solar term began.
    pub term_day: usize,
}

/// What an [`AlmanacDay`] is.
pub struct AlmanacView {
    pub lunar_day: usize,
    pub lunar_month: Seq<char>,
    pub lunar_festival: Option<Seq<char>>,
    pub solar_festival: Option<Seq<char>>,
    pub solar_term: Seq<char>,
    pub term_day: usize,
}

impl View for AlmanacDay {
    type V = AlmanacView;

    open spec fn view(&self) -> AlmanacView {
        AlmanacView {
            lunar_day: self.lunar_day,
            lunar_month: self.lunar_month@,
            lunar_festival: opt_view(self.lunar_festival),
            solar_festival: opt_view(self.solar_festival),
            solar_term: self.solar_term@,
            term_day: self.term_day,
        }
    }
}

/// The labels of a day of which the almanac says `a`: the month name on the
/// first day of a lunar month, traditional festivals before modern ones, and
/// the solar term on its first day.
pub open spec fn labels_of(a: AlmanacView) -> LunarView {
    LunarView {
        day_name: lunar_day_text(a.lunar_day as int),
        month_name: if a.lunar_day == 1 {
            Some(a.lunar_month)
        } else {
            None
        },
        festival: match a.lunar_festival {
            Some(s) => Some(s),
            None => a.solar_festival,
        },
        solar_term: if a.term_day == 0 {
            Some(a.solar_term)
        } else {
            None
        },
    }
}

/// What the almanac says of a date.
pub open spec fn almanac_entry(year: int, month: int, day: int) -> AlmanacView {
    AlmanacView {
        lunar_day: lunar_day_of(year, month, day),
        lunar_month: lunar_month_of(year, month, day),
        lunar_festival: lunar_festival_of(year, month, day),
        solar_festival: solar_festival_of(year, month, day),
        solar_term: solar_term_of(year, month, day).0,
        term_day: solar_term_of(year, month, day).1,
    }
}

/// The labels of a day of which the almanac says `a`.
pub fn day_labels(a: AlmanacDay) -> (r: LunarInfo)
    ensures
        r@ == labels_of(a@),
{
    LunarInfo {
        day_name: lunar_day_name(a.lunar_day),
        month_name: if a.lunar_day == 1 {
            Some(a.lunar_month)
        } else {
            None
        },
        festival: match a.lunar_festival {
            Some(s) => Some(s),
            None => a.solar_festival,
        },
        solar_term: if a.term_day == 0 {
            Some(a.solar_term)
        } else {
            None
        },
    }
}

/// Only the first day of a lunar month has the name of the first.
proof fn lemma_first_day(day: int)
    requires
        day >= 1,
    ensures
        lunar_day_text(day) == "初一"@ <==> day == 1,
{
    reveal_strlit("初一");
    reveal_strlit("初二");
    reveal_strlit("初三");
    reveal_strlit("初四");
    reveal_strlit("初五");
    reveal_strlit("初六");
    reveal_strlit("初七");
    reveal_strlit("初八");
    reveal_strlit("初九");
    reveal_strlit("初十");
    reveal_strlit("十一");
    reveal_strlit("十二");
    reveal_strlit("十三");
    reveal_strlit("十四");
    reveal_strlit("十五");
    reveal_strlit("十六");
    reveal_strlit("十七");
    reveal_strlit("十八");
    reveal_strlit("十九");
    reveal_strlit("二十");
    reveal_strlit("廿一");
    reveal_strlit("廿二");
    reveal_strlit("廿三");
    reveal_strlit("廿四");
    reveal_strlit("廿五");
    reveal_strlit("廿六");
    reveal_strlit("廿七");
    reveal_strlit("廿八");
    reveal_strlit("廿九");
    reveal_strlit("三十");
    let first = "初一"@;
    if day != 1 {
        let t = lunar_day_text(day);
        assert(t.len() == 0 || t[0] != first[0] || t[1] != first[1]);
    }
}

/// The labels of a date, or `None` where it is not a date of the almanac.
pub fn lunar_info(year: i32, month: u32, day: u32) -> (r: Option<LunarInfo>)
    requires
        almanac_date(year as int, month as int, day as int) ==> almanac_day(
            year as int,
            month as int,
            day as int,
        ),
    ensures
        match r {
            Some(info) => {
                &&& almanac_date(year as int, month as int, day as int)
                &&& info@ == labels_of(almanac_entry(year as int, month as int, day as int))
                &&& info@.month_name is Some <==> info@.day_name == "初一"@
            },
            None => !almanac_date(year as int, month as int, day as int),
        },
{
    if year < 1 || year > 9999 || month < 1 || month > 12 {
        return None;
    }
    if !is_almanac_date(year, month, day) {
        return None;
    }
    let (term, term_day) = solar_term(year, month, day);
    let in_month: usize = lunar_day(year, month, day);
    proof {
        lemma_first_day(in_month as int);
    }
    let entry = AlmanacDay {
        lunar_day: in_month,
        lunar_month: lunar_month(year, month, day),
        lunar_festival: lunar_festival(year, month, day),
        solar_festival: solar_festival(year, month, day),
        solar_term: term,
        term_day,
    };
    Some(day_labels(entry))
}

} // verus!
