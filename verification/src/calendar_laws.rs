//! What holds of dates, month grids and day labels.

use vstd::prelude::*;

use crate::calendar::{
    day_number, days_are_numbered_in_order, days_before_year, grid_cells, iso_date_is_read_back,
    iso_text, leading_blanks, month_days, month_label, month_name, moved_day, moved_selection,
    parsed_date, shifted_month, showing_month, shown_cells, signed_text, weekday, weekday_label,
    CalendarView,
};
use crate::lunar::{almanac_date, labels_of, lunar_day_text, AlmanacView};
use crate::text::decimal;

verus! {

/// The months have 31 or 30 days, but February 28, or 29 in a leap year: a year
/// that 4 divides, but not 100, or that 400 divides.
pub proof fn months_have_their_lengths(year: int, month: int)
    requires
        1 <= month <= 12,
    ensures
        month_days(year, month) == seq![
            31int,
            if (year % 4 == 0 && year % 100 != 0) || year % 400 == 0 {
                29int
            } else {
                28int
            },
            31,
            30,
            31,
            30,
            31,
            31,
            30,
            31,
            30,
            31,
        ][month - 1],
{
}

/// The date after a date.
pub open spec fn next_date(year: int, month: int, day: int) -> (int, int, int) {
    if day < month_days(year, month) {
        (year, month, day + 1)
    } else if month < 12 {
        (year, month + 1, 1)
    } else {
        (year + 1, 1, 1)
    }
}

/// Days are counted from 0001-01-01 on, one by one over the ends of months and
/// years, so that 400 years have 146097 days.
pub proof fn days_are_counted_one_by_one(year: int, month: int, day: int)
    requires
        1 <= month <= 12,
        1 <= day <= month_days(year, month),
    ensures
        day_number(1, 1, 1) == 0,
        ({
            let (y, m, d) = next_date(year, month, day);
            day_number(y, m, d) == day_number(year, month, day) + 1
        }),
        day_number(year + 400, month, day) == day_number(year, month, day) + 146097,
{
    days_are_numbered_in_order(year, month, day);
    let n = year - 1;
    assert((n + 400) / 4 == n / 4 + 100);
    assert((n + 400) / 100 == n / 100 + 4);
    assert((n + 400) / 400 == n / 400 + 1);
    assert((year + 400) % 4 == year % 4 && (year + 400) % 100 == year % 100 && (year + 400) % 400
        == year % 400);
    assert(days_before_year(year + 400) == days_before_year(year) + 146097);
}

/// Weekdays follow each other day by day, also from the last day of a month to the
/// first of the next and over the end of a year; 0001-01-01 is a Monday and
/// 2026-08-01 a Saturday, where 0 is Sunday.
pub proof fn weekdays_follow_each_other(year: int, month: int, day: int)
    requires
        1 <= month <= 12,
        1 <= day <= month_days(year, month),
    ensures
        0 <= weekday(year, month, day) < 7,
        ({
            let (y, m, d) = next_date(year, month, day);
            weekday(y, m, d) == (weekday(year, month, day) + 1) % 7
        }),
        weekday(year + 400, month, day) == weekday(year, month, day),
        weekday(1, 1, 1) == 1,
        weekday(2026, 8, 1) == 6,
{
    days_are_counted_one_by_one(year, month, day);
    let (y, m, d) = next_date(year, month, day);
    lemma_next_weekday(day_number(year, month, day), day_number(y, m, d));
    lemma_weeks(day_number(year, month, day), day_number(year + 400, month, day));
    lemma_known_weekday();
}

proof fn lemma_next_weekday(a: int, b: int)
    requires
        b == a + 1,
    ensures
        0 <= (a + 1) % 7 < 7,
        (b + 1) % 7 == ((a + 1) % 7 + 1) % 7,
{
}

proof fn lemma_weeks(a: int, b: int)
    requires
        b == a + 146097,
    ensures
        (a + 1) % 7 == (b + 1) % 7,
{
}

proof fn lemma_known_weekday()
    ensures
        weekday(1, 1, 1) == 1,
        weekday(2026, 8, 1) == 6,
{
    assert(day_number(2026, 8, 1) == 739828);
}

/// The grid of a month has its days one behind the other from the first row on,
/// each in the column of its weekday, and nothing else.
pub proof fn grid_shows_the_month(year: int, month: int, start_of_week: int, i: int)
    requires
        0 <= start_of_week,
        0 <= i < 42,
    ensures
        grid_cells(year, month, start_of_week).len() == 42,
        match grid_cells(year, month, start_of_week)[i] {
            Some(day) => {
                let cells = grid_cells(year, month, start_of_week);
                &&& 1 <= day <= month_days(year, month)
                &&& (i % 7 + start_of_week) % 7 == weekday(year, month, day as int)
                &&& day == 1 ==> i < 7
                &&& day < month_days(year, month) ==> i + 1 < 42 && cells[i + 1] == Some(
                    (day + 1) as u32,
                )
                &&& day > 1 ==> i > 0 && cells[i - 1] == Some((day - 1) as u32)
            },
            None => {
                let cells = grid_cells(year, month, start_of_week);
                ||| forall|j: int| 0 <= j <= i ==> (#[trigger] cells[j]) is None
                ||| forall|j: int| i <= j < 42 ==> (#[trigger] cells[j]) is None
            },
        },
        exists|j: int|
            0 <= j < 7 && #[trigger] grid_cells(year, month, start_of_week)[j] == Some(1u32),
{
    let cells = grid_cells(year, month, start_of_week);
    let first = leading_blanks(year, month, start_of_week);
    assert(0 <= first < 7);
    assert(cells[first] == Some(1u32));
    let w = weekday(year, month, 1);
    let n = day_number(year, month, 1) + 1;
    let s = start_of_week % 7;
    if first <= i < first + month_days(year, month) {
        let day = i - first + 1;
        assert(day_number(year, month, day) + 1 == n + (i - first));
        lemma_column(n, start_of_week, i - first);
        assert(((w + 7 - s) % 7 + (i - first)) == i);
    } else if i < first {
        assert forall|j: int| 0 <= j <= i implies (#[trigger] cells[j]) is None by {}
    } else {
        assert forall|j: int| i <= j < 42 implies (#[trigger] cells[j]) is None by {}
    }
}

proof fn lemma_column(n: int, start: int, k: int)
    requires
        0 <= start,
        0 <= k,
    ensures
        (((n % 7 + 7 - start % 7) % 7 + k) % 7 + start) % 7 == (n + k) % 7,
{
}

/// The first day of a month stands in the column behind that of the last day of
/// the month before it.
pub proof fn grids_join_up(year: int, month: int, start_of_week: int, i: int, j: int)
    requires
        1 <= month <= 12,
        0 <= start_of_week,
        0 <= i < 42,
        0 <= j < 42,
        grid_cells(year, month, start_of_week)[i] == Some(month_days(year, month) as u32),
        ({
            let (y, m, _d) = next_date(year, month, month_days(year, month));
            grid_cells(y, m, start_of_week)[j] == Some(1u32)
        }),
    ensures
        j % 7 == (i + 1) % 7,
{
    let last = month_days(year, month);
    let (y, m, d) = next_date(year, month, last);
    grid_shows_the_month(year, month, start_of_week, i);
    grid_shows_the_month(y, m, start_of_week, j);
    weekdays_follow_each_other(year, month, last);
    lemma_same_column(i, j, start_of_week);
}

proof fn lemma_same_column(i: int, j: int, s: int)
    requires
        (j % 7 + s) % 7 == ((i % 7 + s) % 7 + 1) % 7,
        0 <= i,
        0 <= j,
        0 <= s,
    ensures
        j % 7 == (i + 1) % 7,
{
    assert((j % 7 + s) % 7 == (j + s) % 7);
    assert((i % 7 + s) % 7 == (i + s) % 7);
    assert(((i + s) % 7 + 1) % 7 == (i + s + 1) % 7);
    assert((j + s - (i + s + 1)) % 7 == 0);
    assert((j - (i + 1)) % 7 == 0);
}

/// The character of a decimal digit.
pub open spec fn is_digit_of(c: char, d: int) -> bool {
    c as u32 == 48 + d
}

/// An ISO date is the year in four digits, the month in two and the day in two,
/// with hyphens between them.
pub proof fn iso_dates_are_written_in_digits(year: int, month: int, day: int)
    requires
        0 <= year <= 9999,
        0 <= month <= 99,
        0 <= day <= 99,
    ensures
        ({
            let s = iso_text(year, month, day);
            &&& s.len() == 10
            &&& s[4] == '-' && s[7] == '-'
            &&& is_digit_of(s[0], year / 1000)
            &&& is_digit_of(s[1], year / 100 % 10)
            &&& is_digit_of(s[2], year / 10 % 10)
            &&& is_digit_of(s[3], year % 10)
            &&& is_digit_of(s[5], month / 10)
            &&& is_digit_of(s[6], month % 10)
            &&& is_digit_of(s[8], day / 10)
            &&& is_digit_of(s[9], day % 10)
        }),
{
    lemma_padded2(month as nat);
    lemma_padded2(day as nat);
    lemma_padded4(year as nat);
    let s = iso_text(year, month, day);
    let y = crate::text::padded(year as nat, 4);
    let m = crate::text::padded(month as nat, 2);
    let d = crate::text::padded(day as nat, 2);
    assert(s[0] == y[0] && s[1] == y[1] && s[2] == y[2] && s[3] == y[3]);
    assert(s[5] == m[0] && s[6] == m[1]);
    assert(s[8] == d[0] && s[9] == d[1]);
}

proof fn lemma_padded2(n: nat)
    requires
        n <= 99,
    ensures
        crate::text::padded(n, 2).len() == 2,
        is_digit_of(crate::text::padded(n, 2)[0], n as int / 10),
        is_digit_of(crate::text::padded(n, 2)[1], n as int % 10),
{
    reveal_with_fuel(decimal, 3);
}

proof fn lemma_padded4(n: nat)
    requires
        n <= 9999,
    ensures
        crate::text::padded(n, 4).len() == 4,
        is_digit_of(crate::text::padded(n, 4)[0], n as int / 1000),
        is_digit_of(crate::text::padded(n, 4)[1], n as int / 100 % 10),
        is_digit_of(crate::text::padded(n, 4)[2], n as int / 10 % 10),
        is_digit_of(crate::text::padded(n, 4)[3], n as int % 10),
{
    reveal_with_fuel(decimal, 5);
    assert(n / 10 / 10 == n / 100 && n / 10 / 10 / 10 == n / 1000);
}

proof fn lemma_same_char(a: char, b: char)
    requires
        a as u32 == b as u32,
    ensures
        a == b,
{
}

proof fn lemma_two_digits(s: Seq<char>)
    requires
        s.len() == 2,
        crate::text::all_digits(s),
    ensures
        0 <= crate::text::number(s) <= 99,
        crate::text::padded(crate::text::number(s) as nat, 2) == s,
{
    reveal_with_fuel(crate::text::number, 3);
    let n = crate::text::number(s);
    let a = s[0] as u32 - 48;
    let b = s[1] as u32 - 48;
    assert(crate::text::is_digit(s[0]) && crate::text::is_digit(s[1]));
    assert(s.drop_last().last() == s[0]);
    assert(n == a * 10 + b);
    lemma_padded2(n as nat);
    assert(n / 10 == a && n % 10 == b);
    let t = crate::text::padded(n as nat, 2);
    lemma_same_char(t[0], s[0]);
    lemma_same_char(t[1], s[1]);
    assert(t =~= s);
}

proof fn lemma_four_digits(s: Seq<char>)
    requires
        s.len() == 4,
        crate::text::all_digits(s),
    ensures
        0 <= crate::text::number(s) <= 9999,
        crate::text::padded(crate::text::number(s) as nat, 4) == s,
{
    reveal_with_fuel(crate::text::number, 5);
    let n = crate::text::number(s);
    let a = s[0] as u32 - 48;
    let b = s[1] as u32 - 48;
    let c = s[2] as u32 - 48;
    let d = s[3] as u32 - 48;
    assert(crate::text::is_digit(s[0]) && crate::text::is_digit(s[1]) && crate::text::is_digit(s[2])
        && crate::text::is_digit(s[3]));
    assert(s.drop_last().last() == s[2]);
    assert(s.drop_last().drop_last().last() == s[1]);
    assert(s.drop_last().drop_last().drop_last().last() == s[0]);
    assert(n == a * 1000 + b * 100 + c * 10 + d);
    lemma_padded4(n as nat);
    assert(n / 1000 == a && n / 100 % 10 == b && n / 10 % 10 == c && n % 10 == d);
    let t = crate::text::padded(n as nat, 4);
    lemma_same_char(t[0], s[0]);
    lemma_same_char(t[1], s[1]);
    lemma_same_char(t[2], s[2]);
    lemma_same_char(t[3], s[3]);
    assert(t =~= s);
}

/// Only what an ISO date looks like is read as a date, and it is the one that is
/// written so.
pub proof fn only_iso_dates_are_read(s: Seq<char>)
    ensures
        match parsed_date(s) {
            Some((year, month, day)) => {
                &&& 0 <= year <= 9999 && 0 <= month <= 99 && 0 <= day <= 99
                &&& iso_text(year, month, day) == s
            },
            None => forall|year: int, month: int, day: int|
                0 <= year <= 9999 && 0 <= month <= 99 && 0 <= day <= 99
                    ==> #[trigger] iso_text(year, month, day) != s,
        },
{
    match parsed_date(s) {
        Some((year, month, day)) => {
            lemma_four_digits(s.subrange(0, 4));
            lemma_two_digits(s.subrange(5, 7));
            lemma_two_digits(s.subrange(8, 10));
            assert(iso_text(year, month, day) =~= s) by {
                assert(s =~= s.subrange(0, 4) + seq!['-'] + s.subrange(5, 7) + seq!['-']
                    + s.subrange(8, 10));
            }
        },
        None => {
            assert forall|year: int, month: int, day: int|
                0 <= year <= 9999 && 0 <= month <= 99 && 0 <= day
                    <= 99 implies #[trigger] iso_text(year, month, day) != s by {
                iso_date_is_read_back(year, month, day);
            }
        },
    }
}

/// Each cell of a calendar is a day of its month, under its ISO date; the day that
/// is today, and the one that is selected, is the one with that date.
pub proof fn cells_carry_their_dates(c: CalendarView, i: int)
    requires
        0 <= c.year <= 9999,
        1 <= c.month <= 12,
        0 <= c.start_of_week,
        0 <= i < 42,
    ensures
        shown_cells(c).len() == 42,
        match (shown_cells(c)[i], grid_cells(c.year, c.month, c.start_of_week)[i]) {
            (Some(cell), Some(day)) => {
                &&& cell.day == day
                &&& parsed_date(cell.iso) == Some((c.year, c.month, day as int))
                &&& cell.today <==> cell.iso == c.today
                &&& cell.selected <==> cell.iso == c.selected
            },
            (None, None) => true,
            _ => false,
        },
{
    grid_shows_the_month(c.year, c.month, c.start_of_week, i);
    if let Some(day) = grid_cells(c.year, c.month, c.start_of_week)[i] {
        iso_date_is_read_back(c.year, c.month, day as int);
    }
}

/// Moving by some months goes that many months on, counted over the years.
pub proof fn months_are_counted_over_years(year: int, month: int, delta: int)
    requires
        1 <= month <= 12,
    ensures
        ({
            let (y, m) = shifted_month(year, month, delta);
            &&& 1 <= m <= 12
            &&& y * 12 + m == year * 12 + month + delta
        }),
{
    let total = year * 12 + month - 1 + delta;
    assert((total / 12) * 12 + total % 12 == total);
}

/// Another month is shown with the same day selected, or the last day where the
/// month is shorter; without a selected date with its first day. The day that is
/// today, and the first day of the week, stay.
pub proof fn showing_a_month_keeps_the_day(c: CalendarView, year: int, month: int)
    requires
        0 <= year <= 9999,
        1 <= month <= 12,
    ensures
        ({
            let shown = showing_month(c, year, month);
            &&& shown.year == year && shown.month == month
            &&& shown.today == c.today && shown.start_of_week == c.start_of_week
            &&& match (parsed_date(c.selected), parsed_date(shown.selected)) {
                (Some((_y, _m, d)), Some((y2, m2, d2))) => {
                    &&& y2 == year && m2 == month
                    &&& d <= month_days(year, month) ==> d2 == d
                    &&& d > month_days(year, month) ==> d2 == month_days(year, month)
                },
                (None, Some((y2, m2, d2))) => y2 == year && m2 == month && d2 == 1,
                _ => false,
            }
        }),
{
    if let Some((y, m, d)) = parsed_date(c.selected) {
        assert(0 <= d) by {
            crate::text::lemma_number_bound(c.selected.subrange(8, 10));
        }
        iso_date_is_read_back(
            year,
            month,
            if d <= month_days(year, month) {
                d
            } else {
                month_days(year, month)
            },
        );
    } else {
        iso_date_is_read_back(year, month, 1);
    }
}

/// Moving the selected day leads to the day that many days on, where the month
/// that is shown has it, else to the end of the month on that side.
pub proof fn moves_go_day_by_day(
    year: int,
    month: int,
    selected: Seq<char>,
    delta: int,
)
    requires
        0 <= year <= 9999,
        1 <= month <= 12,
        parsed_date(selected) is Some,
    ensures
        match (parsed_date(selected), parsed_date(moved_selection(year, month, selected, delta))) {
            (Some((y, m, d)), Some((y2, m2, d2))) => {
                let target = day_number(y, m, d) + delta;
                &&& y2 == year && m2 == month
                &&& if target < day_number(year, month, 1) {
                    d2 == 1
                } else if target > day_number(year, month, month_days(year, month)) {
                    d2 == month_days(year, month)
                } else {
                    day_number(y2, m2, d2) == target
                }
            },
            _ => false,
        },
{
    let from = parsed_date(selected)->0;
    let day = moved_day(year, month, from, delta);
    iso_date_is_read_back(year, month, day);
}

/// The months of the year in English.
pub open spec fn english_months() -> Seq<Seq<char>> {
    seq![
        "January"@,
        "February"@,
        "March"@,
        "April"@,
        "May"@,
        "June"@,
        "July"@,
        "August"@,
        "September"@,
        "October"@,
        "November"@,
        "December"@,
    ]
}

/// A month is headed in Chinese by its year and its number, in other languages by
/// its English name and its year.
pub proof fn months_are_headed(language: Seq<char>, year: int, month: int)
    requires
        1 <= month <= 12,
        0 <= year,
    ensures
        language.len() >= 2 && language[0] == 'z' && language[1] == 'h' ==> month_label(
            language,
            year,
            month,
        ) == decimal(year as nat) + " 年 "@ + decimal(month as nat) + " 月"@,
        !(language.len() >= 2 && language[0] == 'z' && language[1] == 'h') ==> month_label(
            language,
            year,
            month,
        ) == english_months()[month - 1] + " "@ + decimal(year as nat),
{
    reveal_strlit("zh");
    if language.len() >= 2 {
        assert("zh"@.len() == 2 && "zh"@[0] == 'z' && "zh"@[1] == 'h');
        assert(language.take(2)[0] == language[0] && language.take(2)[1] == language[1]);
        if language[0] == 'z' && language[1] == 'h' {
            assert(language.take(2) =~= "zh"@);
        }
    }
    assert(month_name(month) == english_months()[month - 1]);
    assert(signed_text(year) == decimal(year as nat));
}

/// The weekdays, from Sunday on, in Chinese and by their English initials.
pub open spec fn weekday_names(chinese: bool) -> Seq<Seq<char>> {
    if chinese {
        seq!["日"@, "一"@, "二"@, "三"@, "四"@, "五"@, "六"@]
    } else {
        seq!["S"@, "M"@, "T"@, "W"@, "T"@, "F"@, "S"@]
    }
}

/// The column of a day is headed by the name of its weekday.
pub proof fn columns_are_headed_by_weekday(
    language: Seq<char>,
    year: int,
    month: int,
    start_of_week: int,
    i: int,
)
    requires
        0 <= start_of_week,
        0 <= i < 42,
        grid_cells(year, month, start_of_week)[i] is Some,
    ensures
        ({
            let day = grid_cells(year, month, start_of_week)[i]->0 as int;
            let chinese = language.len() >= 2 && language[0] == 'z' && language[1] == 'h';
            weekday_label(language, (start_of_week % 7 + i % 7) % 7) == weekday_names(chinese)[weekday(
                year,
                month,
                day,
            )]
        }),
{
    grid_shows_the_month(year, month, start_of_week, i);
    let w = weekday(year, month, grid_cells(year, month, start_of_week)[i]->0 as int);
    lemma_rotation(start_of_week, i);
    lemma_weekday_names(language, (start_of_week % 7 + i % 7) % 7);
    assert(w == (start_of_week % 7 + i % 7) % 7);
}

proof fn lemma_rotation(s: int, i: int)
    ensures
        (s % 7 + i % 7) % 7 == (i % 7 + s) % 7,
{
}

proof fn lemma_weekday_names(language: Seq<char>, w: int)
    requires
        0 <= w < 7,
    ensures
        weekday_label(language, w) == weekday_names(
            language.len() >= 2 && language[0] == 'z' && language[1] == 'h',
        )[w],
{
    reveal_strlit("zh");
    if language.len() >= 2 {
        assert("zh"@.len() == 2 && "zh"@[0] == 'z' && "zh"@[1] == 'h');
        assert(language.take(2)[0] == language[0] && language.take(2)[1] == language[1]);
        if language[0] == 'z' && language[1] == 'h' {
            assert(language.take(2) =~= "zh"@);
        }
    }
}

/// The days of a lunar month are counted in tens: `初` before the numerals of the
/// first ten, `十` and `廿` before those of the second and the third; the tens are
/// `初十`, `二十` and `三十`.
pub proof fn lunar_days_are_counted_in_tens(day: int)
    requires
        1 <= day <= 30,
    ensures
        ({
            let numerals = seq!['一', '二', '三', '四', '五', '六', '七', '八', '九', '十'];
            let text = lunar_day_text(day);
            &&& text.len() == 2
            &&& text[1] == numerals[(day - 1) % 10]
            &&& text[0] == if day <= 10 {
                '初'
            } else if day < 20 {
                '十'
            } else if day == 20 {
                '二'
            } else if day < 30 {
                '廿'
            } else {
                '三'
            }
        }),
{
    reveal_strlit("初一");
    reveal_strlit("初二");
    reveal_strlit("初三");
    reveal_strlit("初四");
    reveal_strlit("初五");
    reveal_strlit("初六");
    reveal_strlit("初七");
    reveal_strlit("初八");
    reveal_strlit("初九");
    reveal_strlit("初十");
    reveal_strlit("十一");
    reveal_strlit("十二");
    reveal_strlit("十三");
    reveal_strlit("十四");
    reveal_strlit("十五");
    reveal_strlit("十六");
    reveal_strlit("十七");
    reveal_strlit("十八");
    reveal_strlit("十九");
    reveal_strlit("二十");
    reveal_strlit("廿一");
    reveal_strlit("廿二");
    reveal_strlit("廿三");
    reveal_strlit("廿四");
    reveal_strlit("廿五");
    reveal_strlit("廿六");
    reveal_strlit("廿七");
    reveal_strlit("廿八");
    reveal_strlit("廿九");
    reveal_strlit("三十");
}

/// A festival comes before a solar term, that before the month that begins, and
/// that before the day; a traditional festival before a modern one.
pub proof fn labels_go_by_rank(a: AlmanacView)
    requires
        1 <= a.lunar_day <= 30,
    ensures
        labels_of(a).day_name == lunar_day_text(a.lunar_day as int),
        a.lunar_festival is Some ==> labels_of(a).festival == a.lunar_festival && labels_of(
            a,
        ).label() == a.lunar_festival->0,
        a.lunar_festival is None && a.solar_festival is Some ==> labels_of(a).festival
            == a.solar_festival && labels_of(a).label() == a.solar_festival->0,
        a.lunar_festival is None && a.solar_festival is None ==> labels_of(a).festival is None && (
        if a.term_day == 0 {
            labels_of(a).label() == a.solar_term
        } else if a.lunar_day == 1 {
            labels_of(a).label() == a.lunar_month
        } else {
            labels_of(a).label() == lunar_day_text(a.lunar_day as int)
        }),
        labels_of(a).solar_term == (if a.term_day == 0 {
            Some(a.solar_term)
        } else {
            None
        }),
        labels_of(a).month_name == (if a.lunar_day == 1 {
            Some(a.lunar_month)
        } else {
            None
        }),
{
}

/// A negative number is written with a sign before its digits; a year before the first
/// is padded to four characters with its sign.
pub proof fn negative_numbers_have_a_sign(n: int, month: int, day: int)
    requires
        n < 0,
    ensures
        signed_text(n) == seq!['-'] + decimal((-n) as nat),
        -999 <= n && 0 <= month <= 99 && 0 <= day <= 99 ==> iso_text(n, month, day).len() == 10
            && iso_text(n, month, day)[0] == '-',
        signed_text(-n) == decimal((-n) as nat),
{
    if -999 <= n && 0 <= month <= 99 && 0 <= day <= 99 {
        lemma_padded2(month as nat);
        lemma_padded2(day as nat);
        lemma_padded3((-n) as nat);
        let y = seq!['-'] + crate::text::padded((-n) as nat, 3);
        assert(iso_text(n, month, day)[0] == y[0]);
    }
}

proof fn lemma_padded3(n: nat)
    requires
        n <= 999,
    ensures
        crate::text::padded(n, 3).len() == 3,
{
    reveal_with_fuel(decimal, 4);
}

/// The days of which the almanac speaks: none before the first year or behind the year
/// 9999, none that its month does not have, and none of the ten that were left out in
/// October 1582.
pub proof fn almanac_has_the_days_of_the_calendar(year: int, month: int, day: int)
    ensures
        almanac_date(year, month, day) ==> 1 <= year <= 9999 && 1 <= month <= 12 && 1 <= day <= 31,
        1600 <= year <= 9999 && 1 <= month <= 12 ==> (almanac_date(year, month, day) <==> 1 <= day
            <= month_days(year, month)),
        year == 1582 && month == 10 && 5 <= day <= 14 ==> !almanac_date(year, month, day),
        year == 1582 && month == 10 && (1 <= day <= 4 || 15 <= day <= 31) ==> almanac_date(
            year,
            month,
            day,
        ),
        1 <= year < 1582 && month == 2 ==> (almanac_date(year, month, 29) <==> year % 4 == 0),
{
}

} // verus!
