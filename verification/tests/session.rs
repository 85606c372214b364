use hiquant::broker::{quote_path, MiniQmtConfig};
use hiquant::date::Date;
use hiquant::session::a_share_minutes;

#[test]
fn trading_day_minutes() {
    let m = a_share_minutes(Date::from_ymd(2024, 1, 2));
    assert_eq!(m.len(), 240);
    assert_eq!(m[0], "2024-01-02 09:31:00");
    assert_eq!(m[29], "2024-01-02 10:00:00");
    assert_eq!(m[119], "2024-01-02 11:30:00");
    assert_eq!(m[120], "2024-01-02 13:01:00");
    assert_eq!(m[239], "2024-01-02 15:00:00");
}

#[test]
fn sidecar_addresses() {
    let mut c = MiniQmtConfig::default();
    assert_eq!(c.base_url, "http://127.0.0.1:7788");
    assert_eq!(c.timeout_secs, 10);
    assert_eq!(c.url("/ping"), "http://127.0.0.1:7788/ping");
    c.base_url = "http://host:1//".to_string();
    assert_eq!(c.url("/account"), "http://host:1/account");
    assert_eq!(quote_path("IF 2306"), "/quote?code=IF%202306");
}
