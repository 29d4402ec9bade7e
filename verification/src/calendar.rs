//! Dates and month grids.

use vstd::prelude::*;

use crate::text::{
    all_digits, chars_of, decimal, has_prefix, is_digit, number, padded, padded_writes_the_number,
    parse_digits, push_decimal, push_padded, same, small_decimals_are_short, starts_with, views,
};

verus! {

/// Week rows of a month grid.
pub const CALENDAR_ROWS: usize = 6;

/// What a plugin's calendar view shows: one month.
#[derive(Debug, PartialEq, Eq)]
pub struct CalendarData {
    pub year: i32,
    /// From 1 to 12.
    pub month: u32,
    /// ISO date `YYYY-MM-DD` of today.
    pub today: String,
    /// ISO date where the keyboard selection starts.
    pub selected: String,
    /// 0 is Sunday first, 1 is Monday first.
    pub start_of_week: u8,
}

impl Clone for CalendarData {
    fn clone(&self) -> (r: Self)
        ensures
            r == *self,
    {
        CalendarData {
            year: self.year,
            month: self.month,
            today: self.today.clone(),
            selected: self.selected.clone(),
            start_of_week: self.start_of_week,
        }
    }
}

/// What a [`CalendarData`] is.
pub struct CalendarView {
    pub year: int,
    pub month: int,
    pub today: Seq<char>,
    pub selected: Seq<char>,
    pub start_of_week: int,
}

impl View for CalendarData {
    type V = CalendarView;

    open spec fn view(&self) -> CalendarView {
        CalendarView {
            year: self.year as int,
            month: self.month as int,
            today: self.today@,
            selected: self.selected@,
            start_of_week: self.start_of_week as int,
        }
    }
}

/// Whether a year has a leap day, in the proleptic Gregorian calendar.
pub open spec fn is_leap(year: int) -> bool {
    (year % 4 == 0 && year % 100 != 0) || year % 400 == 0
}

/// The number of days of a month; 30 for a number that is no month.
pub open spec fn month_days(year: int, month: int) -> int {
    if month == 1 || month == 3 || month == 5 || month == 7 || month == 8 || month == 10 || month
        == 12 {
        31
    } else if month == 2 {
        if is_leap(year) {
            29
        } else {
            28
        }
    } else {
        30
    }
}

/// The days from 0001-01-01 to the first day of a year.
pub open spec fn days_before_year(year: int) -> int {
    365 * (year - 1) + (year - 1) / 4 - (year - 1) / 100 + (year - 1) / 400
}

/// The days of a year before a month begins; none for a number that is no month
/// but for a leap day.
pub open spec fn days_before_month(year: int, month: int) -> int {
    let days = if month == 2 {
        31
    } else if month == 3 {
        59
    } else if month == 4 {
        90
    } else if month == 5 {
        120
    } else if month == 6 {
        151
    } else if month == 7 {
        181
    } else if month == 8 {
        212
    } else if month == 9 {
        243
    } else if month == 10 {
        273
    } else if month == 11 {
        304
    } else if month == 12 {
        334
    } else {
        0int
    };
    if is_leap(year) && month > 2 {
        days + 1
    } else {
        days
    }
}

/// The days from 0001-01-01, a Monday, to a date.
pub open spec fn day_number(year: int, month: int, day: int) -> int {
    days_before_year(year) + days_before_month(year, month) + day - 1
}

/// The weekday of a date; 0 is Sunday.
pub open spec fn weekday(year: int, month: int, day: int) -> int {
    (day_number(year, month, day) + 1) % 7
}

/// The blank cells before the first day of a month.
pub open spec fn leading_blanks(year: int, month: int, start_of_week: int) -> int {
    (weekday(year, month, 1) + 7 - start_of_week % 7) % 7
}

/// The cells of a month: seven columns, six rows, each day in order, with
/// blanks before and behind.
pub open spec fn grid_cells(year: int, month: int, start_of_week: int) -> Seq<Option<u32>> {
    let first = leading_blanks(year, month, start_of_week);
    Seq::new(
        42,
        |i: int|
            if first <= i < first + month_days(year, month) {
                Some((i - first + 1) as u32)
            } else {
                None
            },
    )
}

/// Whether a year has a leap day.
fn leap_year(year: i32) -> (r: bool)
    ensures
        r == is_leap(year as int),
{
    let y: i64 = year as i64 + 2147484000;
    (y % 4 == 0 && y % 100 != 0) || y % 400 == 0
}

/// The number of days of a month; 30 for a number that is no month.
pub fn days_in_month(year: i32, month: u32) -> (r: u32)
    ensures
        r == month_days(year as int, month as int),
{
    match month {
        1 | 3 | 5 | 7 | 8 | 10 | 12 => 31,
        4 | 6 | 9 | 11 => 30,
        2 => {
            if leap_year(year) {
                29
            } else {
                28
            }
        },
        _ => 30,
    }
}

/// The days from 0001-01-01 to the first day of a year.
fn days_to_year(year: i32) -> (r: i64)
    ensures
        r == days_before_year(year as int),
        -1_000_000_000_000 < r < 1_000_000_000_000,
{
    let n: i64 = year as i64 + 2147483999;
    let quarters: i64 = n / 4;
    let centuries: i64 = n / 100;
    let eras: i64 = n / 400;
    proof {
        let a = year as int - 1;
        assert(n == a + 2147484000);
        assert(n as int / 4 == a / 4 + 536871000);
        assert(n as int / 100 == a / 100 + 21474840);
        assert(n as int / 400 == a / 400 + 5368710);
    }
    365 * (year as i64 - 1) + (quarters - 536871000) - (centuries - 21474840) + (eras - 5368710)
}

/// The days of a year before a month begins.
fn days_to_month(year: i32, month: u32) -> (r: i64)
    ensures
        r == days_before_month(year as int, month as int),
        0 <= r <= 335,
{
    let days: i64 = match month {
        2 => 31,
        3 => 59,
        4 => 90,
        5 => 120,
        6 => 151,
        7 => 181,
        8 => 212,
        9 => 243,
        10 => 273,
        11 => 304,
        12 => 334,
        _ => 0,
    };
    if month > 2 && leap_year(year) {
        days + 1
    } else {
        days
    }
}

/// The days from 0001-01-01, a Monday, to a date.
pub fn days_since_epoch(year: i32, month: u32, day: u32) -> (r: i64)
    ensures
        r == day_number(year as int, month as int, day as int),
        -2_000_000_000_000 < r < 2_000_000_000_000,
{
    days_to_year(year) + days_to_month(year, month) + day as i64 - 1
}

/// The remainder of a division by seven.
fn modulo_week(n: i64) -> (r: u32)
    requires
        -3_000_000_000_000 < n < 3_000_000_000_000,
    ensures
        r == n as int % 7,
{
    let shifted: i64 = n + 7_000_000_000_000;
    assert(shifted as int % 7 == n as int % 7);
    (shifted % 7) as u32
}

/// The month as a grid of seven columns and six rows, padded with blanks before
/// the first day and behind the last.
pub fn month_grid(year: i32, month: u32, start_of_week: u8) -> (r: Vec<Option<u32>>)
    ensures
        r@ == grid_cells(year as int, month as int, start_of_week as int),
{
    let days: u32 = days_in_month(year, month);
    let weekday: u32 = modulo_week(days_since_epoch(year, month, 1) + 1);
    let leading: u32 = (weekday + 7 - (start_of_week % 7) as u32) % 7;
    let mut cells: Vec<Option<u32>> = Vec::new();
    let mut i: u32 = 0;
    while i < 42
        invariant
            i <= 42,
            leading == leading_blanks(year as int, month as int, start_of_week as int),
            0 <= leading < 7,
            days == month_days(year as int, month as int),
            cells@ == grid_cells(year as int, month as int, start_of_week as int).take(i as int),
        decreases 42 - i,
    {
        let cell = if i >= leading && i < leading + days {
            Some(i - leading + 1)
        } else {
            None
        };
        cells.push(cell);
        i += 1;
        assert(cells@ =~= grid_cells(year as int, month as int, start_of_week as int).take(
            i as int,
        ));
    }
    assert(cells@ =~= grid_cells(year as int, month as int, start_of_week as int));
    cells
}

/// A number padded with zeros to `width` characters, the sign included.
pub open spec fn padded_signed(n: int, width: nat) -> Seq<char> {
    if n >= 0 {
        padded(n as nat, width)
    } else {
        seq!['-'] + padded((-n) as nat, (width - 1) as nat)
    }
}

/// The ISO date `YYYY-MM-DD`.
pub open spec fn iso_text(year: int, month: int, day: int) -> Seq<char> {
    padded_signed(year, 4) + seq!['-'] + padded(month as nat, 2) + seq!['-'] + padded(day as nat, 2)
}

/// Appends a number padded with zeros to `width` characters, the sign included.
fn push_signed(s: &mut String, n: i32, width: usize)
    requires
        width > 0,
    ensures
        final(s)@ == old(s)@ + padded_signed(n as int, width as nat),
{
    if n >= 0 {
        push_padded(s, n as u64, width);
    } else {
        s.push('-');
        push_padded(s, (-(n as i64)) as u64, width - 1);
        assert(s@ =~= old(s)@ + padded_signed(n as int, width as nat));
    }
}

/// The ISO date `YYYY-MM-DD` of a date.
pub fn iso_date(year: i32, month: u32, day: u32) -> (r: String)
    ensures
        r@ == iso_text(year as int, month as int, day as int),
{
    let mut s = String::new();
    push_signed(&mut s, year, 4);
    s.push('-');
    push_padded(&mut s, month as u64, 2);
    s.push('-');
    push_padded(&mut s, day as u64, 2);
    assert(s@ =~= iso_text(year as int, month as int, day as int));
    s
}

/// The date that `YYYY-MM-DD` writes down; the numbers need not be a day that exists.
pub open spec fn parsed_date(s: Seq<char>) -> Option<(int, int, int)> {
    if s.len() == 10 && s[4] == '-' && s[7] == '-' && all_digits(s.subrange(0, 4)) && all_digits(
        s.subrange(5, 7),
    ) && all_digits(s.subrange(8, 10)) {
        Some((number(s.subrange(0, 4)), number(s.subrange(5, 7)), number(s.subrange(8, 10))))
    } else {
        None
    }
}

/// The view of an optional date.
pub open spec fn date_view(d: Option<(i32, u32, u32)>) -> Option<(int, int, int)> {
    match d {
        Some((y, m, d)) => Some((y as int, m as int, d as int)),
        None => None,
    }
}

proof fn lemma_small_number(s: Seq<char>)
    requires
        all_digits(s),
        s.len() <= 4,
    ensures
        0 <= number(s) <= 9999,
{
    reveal_with_fuel(number, 5);
    assert(forall|i: int| 0 <= i < s.len() ==> is_digit(#[trigger] s[i]));
    if s.len() >= 1 {
        let a = s.drop_last();
        assert(s.last() == s[s.len() - 1]);
        if a.len() >= 1 {
            let b = a.drop_last();
            assert(a.last() == s[s.len() - 2]);
            if b.len() >= 1 {
                let c = b.drop_last();
                assert(b.last() == s[s.len() - 3]);
                if c.len() >= 1 {
                    assert(c.last() == s[s.len() - 4]);
                }
            }
        }
    }
}

/// Parses `YYYY-MM-DD`.
pub fn parse_iso_date(iso: &str) -> (r: Option<(i32, u32, u32)>)
    ensures
        date_view(r) == parsed_date(iso@),
{
    let v = chars_of(iso);
    if v.len() != 10 || v[4] != '-' || v[7] != '-' {
        return None;
    }
    proof {
        if all_digits(v@.subrange(0, 4)) {
            lemma_small_number(v@.subrange(0, 4));
        }
        if all_digits(v@.subrange(5, 7)) {
            lemma_small_number(v@.subrange(5, 7));
        }
        if all_digits(v@.subrange(8, 10)) {
            lemma_small_number(v@.subrange(8, 10));
        }
    }
    match (
        parse_digits(&v, 0, 4, 9999),
        parse_digits(&v, 5, 7, 9999),
        parse_digits(&v, 8, 10, 9999),
    ) {
        (Some(y), Some(m), Some(d)) => Some((y as i32, m as u32, d as u32)),
        _ => None,
    }
}

/// The day of a month that is nearest to `delta` days from a date.
pub open spec fn moved_day(year: int, month: int, from: (int, int, int), delta: int) -> int {
    let day = day_number(from.0, from.1, from.2) + delta - day_number(year, month, 1) + 1;
    if day < 1 {
        1
    } else if day > month_days(year, month) {
        month_days(year, month)
    } else {
        day
    }
}

/// The selection that `delta` days lead to, held within the month that is
/// shown; what is no date stays.
pub open spec fn moved_selection(
    year: int,
    month: int,
    selected: Seq<char>,
    delta: int,
) -> Seq<char> {
    match parsed_date(selected) {
        Some(from) => iso_text(year, month, moved_day(year, month, from, delta)),
        None => selected,
    }
}

/// The ISO date `delta` days from the selected one, held within the month that
/// is shown; `None` where what is selected is no date.
pub fn move_selected(selected: &str, year: i32, month: u32, delta: i32) -> (r: Option<String>)
    ensures
        r is Some == parsed_date(selected@) is Some,
        r matches Some(iso) ==> iso@ == moved_selection(
            year as int,
            month as int,
            selected@,
            delta as int,
        ),
{
    match parse_iso_date(selected) {
        Some((y, m, d)) => {
            let days: u32 = days_in_month(year, month);
            let target: i64 = days_since_epoch(y, m, d) + delta as i64 - days_since_epoch(
                year,
                month,
                1,
            ) + 1;
            let new_day: u32 = if target < 1 {
                1
            } else if target > days as i64 {
                days
            } else {
                target as u32
            };
            Some(iso_date(year, month, new_day))
        },
        None => None,
    }
}

/// The month `delta` months from a month, as a year and a month.
pub open spec fn shifted_month(year: int, month: int, delta: int) -> (int, int) {
    let total = year * 12 + month - 1 + delta;
    (total / 12, total % 12 + 1)
}

/// Moves a month by `delta` months, across the ends of years.
pub fn shift_month(year: i32, month: u32, delta: i32) -> (r: (i32, u32))
    requires
        i32::MIN <= shifted_month(year as int, month as int, delta as int).0 <= i32::MAX,
    ensures
        (r.0 as int, r.1 as int) == shifted_month(year as int, month as int, delta as int),
{
    let total: i64 = (year as i64 + 4294967296) * 12 + month as i64 - 1 + delta as i64;
    let y: i64 = total / 12 - 4294967296;
    let m: i64 = total % 12 + 1;
    assert(total == year * 12 + month - 1 + delta + 12 * 4294967296);
    (y as i32, m as u32)
}

/// The calendar with another month shown: the selected day stays, as far as the
/// month has it.
pub open spec fn showing_month(c: CalendarView, year: int, month: int) -> CalendarView {
    let day = match parsed_date(c.selected) {
        Some((_, _, d)) => d,
        None => 1,
    };
    let last = month_days(year, month);
    CalendarView {
        year,
        month,
        selected: iso_text(
            year,
            month,
            if day <= last {
                day
            } else {
                last
            },
        ),
        ..c
    }
}

impl CalendarData {
    /// Shows another month.
    pub fn apply_month(&mut self, year: i32, month: u32)
        ensures
            final(self)@ == showing_month(old(self)@, year as int, month as int),
    {
        let mut day: u32 = match parse_iso_date(self.selected.as_str()) {
            Some((_, _, day)) => day,
            None => 1,
        };
        let last: u32 = days_in_month(year, month);
        if day > last {
            day = last;
        }
        self.year = year;
        self.month = month;
        self.selected = iso_date(year, month, day);
    }

    /// Shows the month `delta` months away.
    pub fn navigate_month(&mut self, delta: i32)
        requires
            i32::MIN <= shifted_month(old(self)@.year, old(self)@.month, delta as int).0
                <= i32::MAX,
        ensures
            ({
                let (y, m) = shifted_month(old(self)@.year, old(self)@.month, delta as int);
                final(self)@ == showing_month(old(self)@, y, m)
            }),
    {
        let (year, month) = shift_month(self.year, self.month, delta);
        self.apply_month(year, month);
    }

    /// Shows the same month `delta` years away.
    pub fn navigate_year(&mut self, delta: i32)
        requires
            i32::MIN <= old(self)@.year + delta <= i32::MAX,
        ensures
            final(self)@ == showing_month(old(self)@, old(self)@.year + delta, old(self)@.month),
    {
        self.apply_month(self.year + delta, self.month);
    }
}

/// A day as a calendar shows it.
#[derive(Debug, PartialEq, Eq)]
pub struct DayCell {
    pub day: u32,
    /// The ISO date, which choosing the day hands on.
    pub iso: String,
    pub today: bool,
    pub selected: bool,
}

/// What a [`DayCell`] is.
pub struct DayView {
    pub day: u32,
    pub iso: Seq<char>,
    pub today: bool,
    pub selected: bool,
}

impl View for DayCell {
    type V = DayView;

    open spec fn view(&self) -> DayView {
        DayView { day: self.day, iso: self.iso@, today: self.today, selected: self.selected }
    }
}

/// The view of an optional day.
pub open spec fn opt_cell(o: Option<DayCell>) -> Option<DayView> {
    match o {
        Some(c) => Some(c@),
        None => None,
    }
}

/// A day of the month of a calendar: whether it is the one that the calendar
/// calls today, and the selected one, goes by its ISO date.
pub open spec fn shown_day(c: CalendarView, day: u32) -> DayView {
    let iso = iso_text(c.year, c.month, day as int);
    DayView { day, iso, today: iso == c.today, selected: iso == c.selected }
}

/// The cells of a calendar: those of its month, with each day as it is shown.
pub open spec fn shown_cells(c: CalendarView) -> Seq<Option<DayView>> {
    grid_cells(c.year, c.month, c.start_of_week).map_values(
        |cell: Option<u32>|
            match cell {
                Some(day) => Some(shown_day(c, day)),
                None => None,
            },
    )
}

impl CalendarData {
    /// The cells of the calendar, row by row.
    pub fn cells(&self) -> (r: Vec<Option<DayCell>>)
        ensures
            r@.map_values(|o: Option<DayCell>| opt_cell(o)) == shown_cells(self@),
    {
        let grid = month_grid(self.year, self.month, self.start_of_week);
        let mut r: Vec<Option<DayCell>> = Vec::new();
        let mut i: usize = 0;
        while i < grid.len()
            invariant
                i <= grid.len(),
                grid@ == grid_cells(self@.year, self@.month, self@.start_of_week),
                r@.len() == i,
                forall|j: int| 0 <= j < i ==> opt_cell(#[trigger] r@[j]) == shown_cells(self@)[j],
            decreases grid.len() - i,
        {
            let cell = match grid[i] {
                Some(day) => {
                    let iso = iso_date(self.year, self.month, day);
                    let today = same(iso.as_str(), self.today.as_str());
                    let selected = same(iso.as_str(), self.selected.as_str());
                    Some(DayCell { day, iso, today, selected })
                },
                None => None,
            };
            r.push(cell);
            assert(opt_cell(r@[i as int]) == shown_cells(self@)[i as int]);
            i += 1;
        }
        assert(r@.map_values(|o: Option<DayCell>| opt_cell(o)) =~= shown_cells(self@));
        r
    }
}

/// The English name of a month; 0 counts as January, and what is past December
/// has no name but `?`.
pub open spec fn month_name(month: int) -> Seq<char> {
    if month <= 1 {
        "January"@
    } else if month == 2 {
        "February"@
    } else if month == 3 {
        "March"@
    } else if month == 4 {
        "April"@
    } else if month == 5 {
        "May"@
    } else if month == 6 {
        "June"@
    } else if month == 7 {
        "July"@
    } else if month == 8 {
        "August"@
    } else if month == 9 {
        "September"@
    } else if month == 10 {
        "October"@
    } else if month == 11 {
        "November"@
    } else if month == 12 {
        "December"@
    } else {
        "?"@
    }
}

/// A number in decimal, with its sign where it is negative.
pub open spec fn signed_text(n: int) -> Seq<char> {
    if n >= 0 {
        decimal(n as nat)
    } else {
        seq!['-'] + decimal((-n) as nat)
    }
}

/// Appends a number in decimal.
fn push_number(s: &mut String, n: i32)
    ensures
        final(s)@ == old(s)@ + signed_text(n as int),
{
    if n >= 0 {
        push_decimal(s, n as u64);
    } else {
        s.push('-');
        push_decimal(s, (-(n as i64)) as u64);
        assert(s@ =~= old(s)@ + signed_text(n as int));
    }
}

/// The heading of a month: in Chinese the year and the month as numbers, else
/// the name of the month and the year.
pub open spec fn month_label(language: Seq<char>, year: int, month: int) -> Seq<char> {
    if has_prefix(language, "zh"@) {
        signed_text(year) + " 年 "@ + decimal(month as nat) + " 月"@
    } else {
        month_name(month) + " "@ + signed_text(year)
    }
}

/// The heading of a month, such as `August 2026` or `2026 年 8 月`.
pub fn calendar_month_label(language: &str, year: i32, month: u32) -> (r: String)
    ensures
        r@ == month_label(language@, year as int, month as int),
{
    if starts_with(language, "zh") {
        let mut s = String::new();
        push_number(&mut s, year);
        s.append(" 年 ");
        push_decimal(&mut s, month as u64);
        s.append(" 月");
        assert(s@ =~= month_label(language@, year as int, month as int));
        s
    } else {
        let name = match month {
            0 | 1 => "January",
            2 => "February",
            3 => "March",
            4 => "April",
            5 => "May",
            6 => "June",
            7 => "July",
            8 => "August",
            9 => "September",
            10 => "October",
            11 => "November",
            12 => "December",
            _ => "?",
        };
        let mut s = name.to_owned();
        s.append(" ");
        push_number(&mut s, year);
        s
    }
}

/// The label of a weekday; 0 is Sunday.
pub open spec fn weekday_label(language: Seq<char>, day: int) -> Seq<char> {
    if has_prefix(language, "zh"@) {
        if day == 0 {
            "日"@
        } else if day == 1 {
            "一"@
        } else if day == 2 {
            "二"@
        } else if day == 3 {
            "三"@
        } else if day == 4 {
            "四"@
        } else if day == 5 {
            "五"@
        } else {
            "六"@
        }
    } else {
        if day == 1 {
            "M"@
        } else if day == 2 || day == 4 {
            "T"@
        } else if day == 3 {
            "W"@
        } else if day == 5 {
            "F"@
        } else {
            "S"@
        }
    }
}

/// The labels of the weekdays, from the first day of the week on.
pub fn calendar_weekday_labels(language: &str, start_of_week: u8) -> (r: Vec<String>)
    ensures
        views(r@) == Seq::new(
            7,
            |i: int| weekday_label(language@, (start_of_week as int % 7 + i) % 7),
        ),
{
    let chinese = starts_with(language, "zh");
    let mut r: Vec<String> = Vec::new();
    let mut i: u8 = 0;
    while i < 7
        invariant
            i <= 7,
            chinese == has_prefix(language@, "zh"@),
            r@.len() == i,
            forall|j: int|
                0 <= j < i ==> (#[trigger] r@[j])@ == weekday_label(
                    language@,
                    (start_of_week as int % 7 + j) % 7,
                ),
        decreases 7 - i,
    {
        let day: u8 = (start_of_week % 7 + i) % 7;
        let label = if chinese {
            match day {
                0 => "日",
                1 => "一",
                2 => "二",
                3 => "三",
                4 => "四",
                5 => "五",
                _ => "六",
            }
        } else {
            match day {
                1 => "M",
                2 | 4 => "T",
                3 => "W",
                5 => "F",
                _ => "S",
            }
        };
        r.push(label.to_owned());
        i += 1;
    }
    assert(views(r@) =~= Seq::new(
        7,
        |i: int| weekday_label(language@, (start_of_week as int % 7 + i) % 7),
    ));
    r
}

/// A date that is written as an ISO date is read back as it was.
pub proof fn iso_date_is_read_back(year: int, month: int, day: int)
    requires
        0 <= year <= 9999,
        0 <= month <= 99,
        0 <= day <= 99,
    ensures
        parsed_date(iso_text(year, month, day)) == Some((year, month, day)),
{
    let y = padded(year as nat, 4);
    let m = padded(month as nat, 2);
    let d = padded(day as nat, 2);
    padded_writes_the_number(year as nat, 4);
    padded_writes_the_number(month as nat, 2);
    padded_writes_the_number(day as nat, 2);
    small_decimals_are_short(year as nat);
    small_decimals_are_short(month as nat);
    small_decimals_are_short(day as nat);
    let s = iso_text(year, month, day);
    assert(s.subrange(0, 4) =~= y);
    assert(s.subrange(5, 7) =~= m);
    assert(s.subrange(8, 10) =~= d);
}

/// A day that follows another has the next day number: within a month, from the
/// end of a month, and from the end of a year.
pub proof fn days_are_numbered_in_order(year: int, month: int, day: int)
    requires
        1 <= month <= 12,
        1 <= day <= month_days(year, month),
    ensures
        day < month_days(year, month) ==> day_number(year, month, day + 1) == day_number(
            year,
            month,
            day,
        ) + 1,
        day == month_days(year, month) && month < 12 ==> day_number(year, month + 1, 1)
            == day_number(year, month, day) + 1,
        day == month_days(year, month) && month == 12 ==> day_number(year + 1, 1, 1) == day_number(
            year,
            month,
            day,
        ) + 1,
{
    if month == 12 {
        lemma_next_year(year);
    }
}

proof fn lemma_next_year(year: int)
    ensures
        days_before_year(year + 1) == days_before_year(year) + if is_leap(year) {
            366int
        } else {
            365int
        },
{
    lemma_division_step(year, 4);
    lemma_division_step(year, 100);
    lemma_division_step(year, 400);
    assert(year % 100 == 0 ==> year % 4 == 0);
    assert(year % 400 == 0 ==> year % 100 == 0);
}

proof fn lemma_division_step(n: int, d: int)
    requires
        d == 4 || d == 100 || d == 400,
    ensures
        n / d == (n - 1) / d + if n % d == 0 {
            1int
        } else {
            0int
        },
{
}

/// Every day of a month stands in the grid exactly once, in the column of its weekday.
pub proof fn each_day_stands_in_its_column(year: int, month: int, start_of_week: int, day: int)
    requires
        1 <= day <= month_days(year, month),
        0 <= start_of_week,
    ensures
        ({
            let cells = grid_cells(year, month, start_of_week);
            let place = leading_blanks(year, month, start_of_week) + day - 1;
            &&& cells.len() == 42
            &&& 0 <= place < 42
            &&& cells[place] == Some(day as u32)
            &&& forall|i: int| 0 <= i < 42 && #[trigger] cells[i] == Some(day as u32) ==> i == place
            &&& place % 7 == (weekday(year, month, day) + 7 - start_of_week % 7) % 7
        }),
{
    let n = day_number(year, month, 1) + 1;
    assert(day_number(year, month, day) + 1 == n + (day - 1));
    lemma_week_shift(n, start_of_week % 7, day - 1);
}

proof fn lemma_week_shift(n: int, s: int, k: int)
    requires
        0 <= s < 7,
        0 <= k,
    ensures
        ((n % 7 + 7 - s) % 7 + k) % 7 == ((n + k) % 7 + 7 - s) % 7,
{
}

/// Moving by some months and back leads to the month it began with, and always
/// to a month from 1 to 12.
pub proof fn moving_back_undoes_moving(year: int, month: int, delta: int)
    requires
        1 <= month <= 12,
    ensures
        ({
            let (y, m) = shifted_month(year, month, delta);
            &&& 1 <= m <= 12
            &&& shifted_month(y, m, -delta) == (year, month)
        }),
{
    let total = year * 12 + month - 1 + delta;
    assert((total / 12) * 12 + total % 12 == total);
}

/// A move leads to a day of the month that is shown, whatever was selected; in
/// that month it moves the day itself, as far as the month goes.
pub proof fn moves_stay_in_the_month(year: int, month: int, selected: Seq<char>, delta: int)
    requires
        0 <= year <= 9999,
        1 <= month <= 12,
        parsed_date(selected) is Some,
    ensures
        match parsed_date(moved_selection(year, month, selected, delta)) {
            Some((y, m, d)) => (y, m) == (year, month) && 1 <= d <= month_days(year, month),
            None => false,
        },
        parsed_date(selected) matches Some((y, m, d)) ==> (y, m) == (year, month) && 1 <= d + delta
            <= month_days(year, month) ==> moved_selection(year, month, selected, delta)
            == iso_text(year, month, d + delta),
{
    let day = moved_day(year, month, parsed_date(selected)->0, delta);
    iso_date_is_read_back(year, month, day);
}

} // verus!
