use chrono::NaiveDate;
use log_viewer::date::{Date, MAX_YEAR, MIN_YEAR};

#[test]
fn a_date_is_a_day_of_the_calendar() {
    assert!(Date::from_ymd_opt(2015, 3, 14).is_some());
    assert!(Date::from_ymd_opt(2015, 0, 14).is_none());
    assert!(Date::from_ymd_opt(2015, 13, 1).is_none());
    assert!(Date::from_ymd_opt(2015, 1, 0).is_none());
    assert!(Date::from_ymd_opt(2015, 1, 32).is_none());
    assert!(Date::from_ymd_opt(2015, 2, 29).is_none());
    assert!(Date::from_ymd_opt(2016, 2, 29).is_some());
    assert!(Date::from_ymd_opt(1900, 2, 29).is_none());
    assert!(Date::from_ymd_opt(2000, 2, 29).is_some());
    assert!(Date::from_ymd_opt(-4, 2, 29).is_some());
    assert!(Date::from_ymd_opt(2023, 4, 31).is_none());
    assert!(Date::from_ymd_opt(2023, 4, 30).is_some());
    assert!(Date::from_ymd_opt(400000, 1, 1).is_none());
    assert!(Date::from_ymd_opt(-400000, 1, 1).is_none());
    assert!(Date::from_ymd_opt(MAX_YEAR, 12, 31).is_some());
    assert!(Date::from_ymd_opt(MAX_YEAR + 1, 1, 1).is_none());
    assert!(Date::from_ymd_opt(MIN_YEAR, 1, 1).is_some());
    assert!(Date::from_ymd_opt(MIN_YEAR - 1, 12, 31).is_none());
}

#[test]
fn a_date_gives_back_its_parts() {
    let date = Date::from_ymd_opt(2024, 1, 31).unwrap();
    assert_eq!(date.year(), 2024);
    assert_eq!(date.month(), 1);
    assert_eq!(date.day(), 31);
}

#[test]
fn a_date_is_written_as_iso_8601() {
    assert_eq!(Date::from_ymd_opt(2024, 1, 1).unwrap().to_text(), "2024-01-01");
    assert_eq!(Date::from_ymd_opt(2024, 1, 31).unwrap().to_text(), "2024-01-31");
    assert_eq!(Date::from_ymd_opt(1999, 12, 31).unwrap().to_text(), "1999-12-31");
    assert_eq!(Date::from_ymd_opt(0, 1, 1).unwrap().to_text(), "0000-01-01");
    assert_eq!(Date::from_ymd_opt(7, 3, 9).unwrap().to_text(), "0007-03-09");
    assert_eq!(Date::from_ymd_opt(9999, 12, 31).unwrap().to_text(), "9999-12-31");
    assert_eq!(Date::from_ymd_opt(10000, 1, 1).unwrap().to_text(), "+10000-01-01");
    assert_eq!(Date::from_ymd_opt(-1, 1, 1).unwrap().to_text(), "-0001-01-01");
    assert_eq!(Date::from_ymd_opt(-12345, 6, 7).unwrap().to_text(), "-12345-06-07");
    assert_eq!(Date::from_ymd_opt(262142, 12, 31).unwrap().to_text(), "+262142-12-31");
}

#[test]
fn dates_agree_with_chrono() {
    let years = [MIN_YEAR - 1, MIN_YEAR, -10000, -9999, -400, -100, -4, -1, 0, 1, 99, 100, 400,
        1900, 1999, 2000, 2023, 2024, 9999, 10000, 99999, 100000, MAX_YEAR, MAX_YEAR + 1];
    for year in years {
        for month in 0..=13u32 {
            for day in [0u32, 1, 9, 10, 28, 29, 30, 31, 32] {
                let ours = Date::from_ymd_opt(year, month, day);
                let theirs = NaiveDate::from_ymd_opt(year, month, day);
                assert_eq!(ours.is_some(), theirs.is_some(), "{year}-{month}-{day}");
                if let (Some(ours), Some(theirs)) = (ours, theirs) {
                    assert_eq!(ours.to_text(), format!("{:?}", theirs));
                    assert_eq!(ours.to_text(), theirs.to_string());
                }
            }
        }
    }
}
