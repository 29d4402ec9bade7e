use steward::calendar::{
    calendar_month_label, calendar_weekday_labels, days_in_month, days_since_epoch, iso_date,
    month_grid, move_selected, parse_iso_date, CalendarData, CALENDAR_ROWS,
};

#[test]
fn month_grid_pads_leading_and_trailing_blanks() {
    // 2026-08-01 is a Saturday; Monday-first -> 5 leading blanks, 31 days,
    // 42 cells total.
    let cells = month_grid(2026, 8, 1);
    assert_eq!(cells.len(), CALENDAR_ROWS * 7);
    assert_eq!(cells.iter().filter(|c| c.is_some()).count(), 31);
    assert!(cells.iter().take(5).all(Option::is_none));
    assert_eq!(cells[5], Some(1));
    assert_eq!(cells[5 + 30], Some(31));
    assert!(cells[36..].iter().all(Option::is_none));
}

#[test]
fn sunday_first_shifts_the_leading_blanks() {
    let sunday_first = month_grid(2026, 8, 0);
    let monday_first = month_grid(2026, 8, 1);
    assert!(sunday_first.iter().take(6).all(Option::is_none));
    assert_eq!(sunday_first[6], Some(1));
    assert_eq!(monday_first[5], Some(1));
}

#[test]
fn leap_year_february_has_29_days() {
    assert_eq!(days_in_month(2024, 2), 29);
    assert_eq!(days_in_month(2023, 2), 28);
    assert_eq!(days_in_month(1900, 2), 28);
    assert_eq!(days_in_month(2000, 2), 29);
}

#[test]
fn iso_date_pads_to_four_and_two_digits() {
    assert_eq!(iso_date(2026, 8, 1), "2026-08-01");
    assert_eq!(iso_date(26, 12, 31), "0026-12-31");
}

#[test]
fn iso_date_parsing_and_navigation_helpers() {
    assert_eq!(parse_iso_date("2026-08-27"), Some((2026, 8, 27)));
    assert_eq!(parse_iso_date("2026-8-27"), None, "month must be zero-padded");
    assert_eq!(parse_iso_date("garbage"), None);
    assert_eq!(parse_iso_date("2026-08-27-extra"), None);

    assert_eq!(calendar_month_label("zh", 2026, 8), "2026 年 8 月");
    assert_eq!(calendar_month_label("en", 2026, 8), "August 2026");

    let monday_first = calendar_weekday_labels("zh", 1);
    assert_eq!(monday_first, ["一", "二", "三", "四", "五", "六", "日"]);
    let sunday_first = calendar_weekday_labels("en", 0);
    assert_eq!(sunday_first, ["S", "M", "T", "W", "T", "F", "S"]);
}

#[test]
fn selection_moves_within_its_month() {
    assert_eq!(move_selected("2026-08-10", 2026, 8, 7).as_deref(), Some("2026-08-17"));
    assert_eq!(move_selected("2026-08-31", 2026, 8, 1).as_deref(), Some("2026-08-31"));
    assert_eq!(move_selected("2026-03-05", 2026, 3, -7).as_deref(), Some("2026-03-01"));
    assert_eq!(move_selected("2024-02-28", 2024, 2, 7).as_deref(), Some("2024-02-29"));
    assert_eq!(move_selected("garbage", 2026, 8, 1), None);
}

#[test]
fn selection_comes_into_the_month_that_is_shown() {
    // August is shown, and a day of another month is selected.
    assert_eq!(move_selected("2026-09-10", 2026, 8, 1).as_deref(), Some("2026-08-31"));
    assert_eq!(move_selected("2026-09-03", 2026, 8, -7).as_deref(), Some("2026-08-27"));
    assert_eq!(move_selected("2026-07-31", 2026, 8, 1).as_deref(), Some("2026-08-01"));
    assert_eq!(move_selected("2026-07-31", 2026, 8, -1).as_deref(), Some("2026-08-01"));
    assert_eq!(move_selected("2025-12-30", 2026, 1, 7).as_deref(), Some("2026-01-06"));
}

#[test]
fn days_count_from_the_first_year() {
    assert_eq!(days_since_epoch(1, 1, 1), 0);
    assert_eq!(days_since_epoch(1970, 1, 1), 719_162);
    assert_eq!(days_since_epoch(0, 12, 31), -1);
    assert_eq!(days_since_epoch(2024, 3, 1) - days_since_epoch(2024, 2, 28), 2);
}

#[test]
fn each_day_is_in_its_weekday_column() {
    // 2026-08-28 is a Friday, 2024-02-29 a Thursday.
    for (year, month, day, weekday) in [(2026, 8, 28, 5), (2024, 2, 29, 4)] {
        for start in 0..7u8 {
            let cells = month_grid(year, month, start);
            let place = cells.iter().position(|c| *c == Some(day)).unwrap();
            assert_eq!((place % 7) as u8, (weekday + 7 - start) % 7);
        }
    }
}

#[test]
fn dates_are_read_back_as_written() {
    for (year, month, day) in [(1, 1, 1), (999, 12, 31), (2024, 2, 29), (9999, 10, 5)] {
        assert_eq!(parse_iso_date(&iso_date(year, month, day)), Some((year, month, day)));
    }
}

#[test]
fn moving_there_and_back_changes_nothing() {
    let there = move_selected("2026-08-15", 2026, 8, 7).unwrap();
    assert_eq!(move_selected(&there, 2026, 8, -7).as_deref(), Some("2026-08-15"));
}

#[test]
fn calendar_marks_today_and_the_selection() {
    let data = CalendarData {
        year: 2026,
        month: 8,
        today: "2026-08-27".into(),
        selected: "2026-08-28".into(),
        start_of_week: 1,
    };
    let cells = data.cells();
    assert_eq!(cells.len(), CALENDAR_ROWS * 7);
    assert!(cells[4].is_none());
    let days: Vec<_> = cells.into_iter().flatten().collect();
    assert_eq!(days.len(), 31);
    assert_eq!(days[0].iso, "2026-08-01");
    assert!(days[26].today && !days[26].selected);
    assert!(days[27].selected && !days[27].today);
    assert_eq!(days.iter().filter(|d| d.today || d.selected).count(), 2);
}
