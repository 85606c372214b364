use hiquant::calendar::TradingCalendar;
use hiquant::date::Date;

#[test]
fn weekend_is_not_trading_day() {
    let cal = TradingCalendar::new_built_in();
    // 2024-01-06 is a Saturday
    let sat = Date::from_ymd(2024, 1, 6);
    assert!(!cal.is_trading_day(sat));
    // 2024-01-08 is a Monday
    let mon = Date::from_ymd(2024, 1, 8);
    assert!(cal.is_trading_day(mon));
}

#[test]
fn holidays_are_not_trading_days() {
    let cal = TradingCalendar::new_built_in();
    // New Year's day 2024 is a Monday, National Day 2024 a Tuesday
    assert!(!cal.is_trading_day(Date::from_ymd(2024, 1, 1)));
    assert!(!cal.is_trading_day(Date::from_ymd(2024, 10, 1)));
    assert!(!cal.is_trading_day(Date::from_ymd(2024, 5, 3)));
    assert!(cal.is_trading_day(Date::from_ymd(2024, 5, 6)));
}

#[test]
fn next_and_prev_skip_weekends() {
    let cal = TradingCalendar::new_built_in();
    let fri = Date::from_ymd(2024, 3, 8);
    let mon = Date::from_ymd(2024, 3, 11);
    assert_eq!(cal.next_trading_day(fri), mon);
    assert_eq!(cal.prev_trading_day(mon), fri);
    // across the Labour Day holiday: Tuesday 2024-04-30 to Monday 2024-05-06
    assert_eq!(cal.next_trading_day(Date::from_ymd(2024, 4, 30)), Date::from_ymd(2024, 5, 6));
}

#[test]
fn days_between_in_order() {
    let cal = TradingCalendar::new_built_in();
    let days = cal.trading_days_between(Date::from_ymd(2024, 3, 8), Date::from_ymd(2024, 3, 13));
    let texts: Vec<String> = days.iter().map(|d| d.as_str()).collect();
    assert_eq!(texts, vec!["2024-03-08", "2024-03-11", "2024-03-12", "2024-03-13"]);
    assert_eq!(cal.count_trading_days(Date::from_ymd(2024, 3, 8), Date::from_ymd(2024, 3, 13)), 4);
    // an empty range
    assert_eq!(cal.count_trading_days(Date::from_ymd(2024, 3, 13), Date::from_ymd(2024, 3, 8)), 0);
    // one full week of March 2024
    assert_eq!(cal.count_trading_days(Date::from_ymd(2024, 3, 4), Date::from_ymd(2024, 3, 10)), 5);
}

#[test]
fn listed_days_rule() {
    let cal = TradingCalendar::from_dates(vec![
        Date::from_ymd(2024, 1, 10),
        Date::from_ymd(2024, 1, 6),
        Date::from_ymd(2024, 1, 8),
        Date::from_ymd(2024, 1, 8),
    ]);
    // listed days count even on a weekend; unlisted weekdays do not
    assert!(cal.is_trading_day(Date::from_ymd(2024, 1, 6)));
    assert!(!cal.is_trading_day(Date::from_ymd(2024, 1, 9)));
    let days = cal.trading_days_between(Date::from_ymd(2024, 1, 1), Date::from_ymd(2024, 1, 9));
    assert_eq!(days, vec![Date::from_ymd(2024, 1, 6), Date::from_ymd(2024, 1, 8)]);
    assert_eq!(cal.next_trading_day(Date::from_ymd(2024, 1, 8)), Date::from_ymd(2024, 1, 10));
    assert_eq!(cal.prev_trading_day(Date::from_ymd(2024, 1, 10)), Date::from_ymd(2024, 1, 8));
}

#[test]
fn calendar_file_lines() {
    let lines: Vec<String> = vec!["# trading days", "20240102", "", "  2024-01-03  ", "not a date", "2024/01/05", "2024-01-02"]
        .into_iter()
        .map(|s| s.to_string())
        .collect();
    let cal = TradingCalendar::from_lines(&lines);
    let days = cal.trading_days_between(Date::from_ymd(2024, 1, 1), Date::from_ymd(2024, 1, 31));
    assert_eq!(days, vec![Date::from_ymd(2024, 1, 2), Date::from_ymd(2024, 1, 3), Date::from_ymd(2024, 1, 5)]);
    assert!(!cal.is_trading_day(Date::from_ymd(2024, 1, 4)));
}
