use steward::lunar::{almanac_knows, lunar_day_name, lunar_info};

#[test]
fn spring_festival_shows_lunar_month_and_festival() {
    // 2024-02-10 is the first day of the lunar year (甲辰龙年正月初一).
    let info = lunar_info(2024, 2, 10).expect("valid date");
    assert_eq!(info.day_name, "初一");
    assert_eq!(info.month_name.as_deref(), Some("正月"));
    assert_eq!(info.festival.as_deref(), Some("春节"));
    assert!(info.solar_term.is_none());
    assert_eq!(info.label(), "春节");
    assert!(info.highlighted());
}

#[test]
fn mid_autumn_festival_beats_lunar_day_name() {
    // 2024-09-17 is 中秋节 (八月十五).
    let info = lunar_info(2024, 9, 17).expect("valid date");
    assert_eq!(info.day_name, "十五");
    assert!(info.month_name.is_none());
    assert_eq!(info.festival.as_deref(), Some("中秋节"));
    assert_eq!(info.label(), "中秋节");
    assert!(info.highlighted());
}

#[test]
fn plain_days_show_lunar_day_name() {
    // 2024-02-14 is 正月初五, no festival or term.
    let info = lunar_info(2024, 2, 14).expect("valid date");
    assert_eq!(info.day_name, "初五");
    assert!(info.month_name.is_none());
    assert!(info.festival.is_none());
    assert!(info.solar_term.is_none());
    assert_eq!(info.label(), "初五");
    assert!(!info.highlighted());
}

#[test]
fn leap_month_start_marks_the_month_name() {
    // 2020-05-23 is 闰四月初一 (2020 has a leap 4th month); the next day
    // is a plain lunar day of that leap month.
    let first = lunar_info(2020, 5, 23).expect("valid date");
    assert_eq!(first.month_name.as_deref(), Some("闰四月"));
    assert_eq!(first.day_name, "初一");
    let second = lunar_info(2020, 5, 24).expect("valid date");
    assert!(second.month_name.is_none());
    assert_eq!(second.day_name, "初二");
}

#[test]
fn solar_terms_are_detected_on_their_day() {
    // 2024-02-04 is 立春; 2024-12-21 is 冬至 (also 冬至节, a festival).
    let lichun = lunar_info(2024, 2, 4).expect("valid date");
    assert_eq!(lichun.solar_term.as_deref(), Some("立春"));
    assert_eq!(lichun.label(), "立春");
    assert!(lichun.highlighted());

    let dongzhi = lunar_info(2024, 12, 21).expect("valid date");
    assert_eq!(dongzhi.festival.as_deref(), Some("冬至节"));
    assert_eq!(dongzhi.solar_term.as_deref(), Some("冬至"));
    assert_eq!(dongzhi.label(), "冬至节");
}

#[test]
fn modern_solar_festivals_are_labeled() {
    // 2024-10-01 is 国庆节 (a modern solar festival).
    let info = lunar_info(2024, 10, 1).expect("valid date");
    assert_eq!(info.festival.as_deref(), Some("国庆节"));
    assert_eq!(info.label(), "国庆节");
    assert!(info.highlighted());
}

#[test]
fn invalid_dates_yield_no_lunar_info() {
    assert!(lunar_info(2024, 0, 1).is_none());
    assert!(lunar_info(2024, 13, 1).is_none());
    assert!(lunar_info(2024, 2, 30).is_none());
}

#[test]
fn almanac_has_gaps() {
    assert!(almanac_knows(2024, 2, 10));
    assert!(!almanac_knows(1, 1, 8));
    assert!(almanac_knows(1, 1, 9));
    assert!(almanac_knows(9999, 11, 30));
    assert!(!almanac_knows(9999, 12, 1));
    assert!(almanac_knows(15, 6, 30));
    assert!(almanac_knows(15, 11, 28));
    assert!(!almanac_knows(15, 11, 29));
}

#[test]
fn lunar_days_have_names() {
    assert_eq!(lunar_day_name(1), "初一");
    assert_eq!(lunar_day_name(10), "初十");
    assert_eq!(lunar_day_name(20), "二十");
    assert_eq!(lunar_day_name(21), "廿一");
    assert_eq!(lunar_day_name(30), "三十");
}

#[test]
fn almanac_answers_up_to_its_gaps() {
    let mut days = 0;
    for year in [1, 9, 10, 12, 13, 14, 15, 16, 17, 18, 19, 20, 21, 22, 9999] {
        for month in 1..=12 {
            for day in 1..=31 {
                if almanac_knows(year, month, day) {
                    if let Some(info) = lunar_info(year, month, day) {
                        assert_eq!(info.month_name.is_some(), info.day_name == "初一");
                        days += 1;
                    }
                }
            }
        }
    }
    assert!(days > 5200);
}
