use chrono::Datelike;
use hiquant::date::Date;

#[test]
fn parse_accepts_three_forms() {
    let a = Date::parse("20240102").unwrap();
    let b = Date::parse("2024-01-02").unwrap();
    let c = Date::parse(" 2024/01/02 ").unwrap();
    assert_eq!(a, b);
    assert_eq!(b, c);
    assert_eq!(a.ymd(), (2024, 1, 2));
    assert_eq!(a.as_str(), "2024-01-02");
    assert_eq!(a.to_int(), 20240102);
}

#[test]
fn parse_rejects_non_dates() {
    assert!(Date::parse("2024-02-30").is_none());
    assert!(Date::parse("hello").is_none());
    assert!(Date::parse("").is_none());
    assert!(Date::parse("2024-13-01").is_none());
    assert!(Date::parse("2024-02-29").is_some());
    assert!(Date::parse("2023-02-29").is_none());
}

#[test]
fn from_ymd_opt_checks_calendar() {
    assert!(Date::from_ymd_opt(2024, 2, 29).is_some());
    assert!(Date::from_ymd_opt(1900, 2, 29).is_none());
    assert!(Date::from_ymd_opt(2000, 2, 29).is_some());
    assert!(Date::from_ymd_opt(2024, 4, 31).is_none());
    assert!(Date::from_ymd_opt(2024, 0, 1).is_none());
}

#[test]
fn succ_and_pred_cross_boundaries() {
    let d = Date::from_ymd(2023, 12, 31);
    assert_eq!(d.succ(), Date::from_ymd(2024, 1, 1));
    assert_eq!(Date::from_ymd(2024, 1, 1).pred(), d);
    assert_eq!(Date::from_ymd(2024, 2, 28).succ(), Date::from_ymd(2024, 2, 29));
    assert_eq!(Date::from_ymd(2024, 3, 1).pred(), Date::from_ymd(2024, 2, 29));
    assert_eq!(Date::from_ymd(2023, 3, 1).pred(), Date::from_ymd(2023, 2, 28));
    assert_eq!(Date::from_ymd(2024, 4, 30).next_day(), Date::from_ymd(2024, 5, 1));
}

#[test]
fn order_and_weekday() {
    let a = Date::from_ymd(2024, 1, 6);
    let b = Date::from_ymd(2024, 1, 8);
    assert!(a.before(b));
    assert!(!b.before(a));
    assert!(!a.before(a));
    // Saturday is 5, Monday 0
    assert_eq!(a.weekday_from_monday(), 5);
    assert_eq!(b.weekday_from_monday(), 0);
    assert_eq!((b.year(), b.month(), b.day()), (2024, 1, 8));
}

#[test]
fn text_and_chrono_forms() {
    let d: Date = "2024-03-05".parse().unwrap();
    assert_eq!(d, Date::from_ymd(2024, 3, 5));
    let e = "2024-02-30".parse::<Date>();
    assert_eq!(e, Err("invalid date: 2024-02-30".to_string()));
    let n = d.to_naive();
    assert_eq!((n.year(), n.month(), n.day()), (2024, 3, 5));
    let t = Date::today().unwrap();
    assert!(t.year() >= 2024);
}
