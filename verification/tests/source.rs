use hiquant::api::{BacktestReq, BarsQuery};
use hiquant::error::HiquantError;
use hiquant::date::Date;
use hiquant::enums::Frequency;
use hiquant::source::{CsvRow, CsvSource, QueryRange, StubSource};
use hiquant::store::StoreConfig;

const U: i64 = 1_000_000;

fn row(dt: &str, close: i64) -> CsvRow {
    CsvRow {
        datetime: dt.to_string(),
        open: close,
        high: close,
        low: close,
        close,
        volume: 10,
        amount: None,
        pre_close: Some(close - U),
        limit_up: None,
        limit_down: None,
        open_interest: None,
    }
}

#[test]
fn stub_source_has_no_data() {
    let s = StubSource;
    assert_eq!(s.name(), "stub");
    let q = QueryRange::new("000001".to_string(), Frequency::Day, "2024-01-01".to_string(), "2024-12-31".to_string());
    assert!(s.fetch_bars(&q).unwrap().is_empty());
}

#[test]
fn csv_rows_in_range_become_bars() {
    let src = CsvSource::new("data".to_string(), Frequency::Day);
    assert_eq!(src.name(), "csv");
    let q = QueryRange::new("000001".to_string(), Frequency::Day, "2024-01-02".to_string(), "2024-01-03".to_string());
    let rows = vec![row("2024-01-01", 9 * U), row("2024-01-02", 10 * U), row("2024-01-03", 11 * U), row("2024-01-04", 12 * U)];
    let bars = src.bars_from_rows(&q, rows);
    assert_eq!(bars.len(), 2);
    assert_eq!(bars[0].datetime, "2024-01-02");
    assert_eq!(bars[0].order_book_id, "000001");
    assert_eq!(bars[0].trading_date, Some(Date::from_ymd(2024, 1, 2)));
    assert_eq!(bars[0].pre_close, 9 * U);
    assert_eq!(bars[0].amount, 0);
    assert_eq!(bars[1].close, 11 * U);
    assert_eq!(bars[1].frequency, Frequency::Day);
}

#[test]
fn csv_file_names() {
    let names = vec!["000001.csv".to_string(), "notes.txt".to_string(), "600000.csv".to_string(), ".csv".to_string()];
    assert_eq!(CsvSource::instrument_names(&names), vec!["000001".to_string(), "600000".to_string(), String::new()]);
    let src = CsvSource::new("data".to_string(), Frequency::Day);
    let p = src.file_for("000001");
    assert!(p.ends_with("000001.csv"));
    assert!(p.starts_with("data"));
}

#[test]
fn store_config() {
    let d = StoreConfig::default();
    assert_eq!(d.path, "hiquant.db");
    assert!(!d.sync);
    let c = StoreConfig::new("x.db".to_string());
    assert_eq!(c.path, "x.db");
}

#[test]
fn bars_query_defaults() {
    let q = BarsQuery { code: "000001".to_string(), freq: None, start: None, end: None };
    let (f, s, e) = q.resolve();
    assert_eq!(f, Frequency::Day);
    assert_eq!(s, "2000-01-01");
    assert_eq!(e, "2099-12-31");
    let q2 = BarsQuery {
        code: "000001".to_string(),
        freq: Some("1min".to_string()),
        start: Some("2024-01-01".to_string()),
        end: Some("2024-02-01".to_string()),
    };
    let (f2, s2, e2) = q2.resolve();
    assert_eq!(f2, Frequency::Min1);
    assert_eq!(s2, "2024-01-01");
    assert_eq!(e2, "2024-02-01");
    let q3 = BarsQuery { code: "x".to_string(), freq: Some("fortnight".to_string()), start: None, end: None };
    assert_eq!(q3.resolve().0, Frequency::Day);
}

#[test]
fn backtest_request_defaults() {
    let r = BacktestReq { code: "000001".to_string(), fast: 0, slow: 30, lots: 0, init_cash: 0, days: 0, seed: 7 };
    assert_eq!(r.resolve(5_000_000), (5, 30, 100, 5_000_000, 120, 7));
    let r2 = BacktestReq { code: "000001".to_string(), fast: 3, slow: 0, lots: 200, init_cash: 9, days: 60, seed: 0 };
    assert_eq!(r2.resolve(5_000_000), (3, 20, 200, 9, 60, 42));
}

#[test]
fn error_text() {
    assert_eq!(HiquantError::Storage("x".to_string()).message(), "storage error: x");
    assert_eq!(HiquantError::other("y".to_string()).message(), "other: y");
    assert_eq!(HiquantError::RiskCheck("z".to_string()).message(), "risk check failed: z");
}

#[test]
fn csv_read_failure_and_success() {
    let src = CsvSource::new("data".to_string(), Frequency::Day);
    let q = QueryRange::new("000001".to_string(), Frequency::Day, "2024-01-02".to_string(), "2024-01-02".to_string());
    match src.bars_from_read(&q, Err("csv not found: data/000001.csv".to_string())) {
        Err(HiquantError::DataSource(m)) => assert_eq!(m, "csv not found: data/000001.csv"),
        _ => panic!("expected a data-source error"),
    }
    let bars = src.bars_from_read(&q, Ok(vec![row("2024-01-01", 9 * U), row("2024-01-02", 10 * U)])).unwrap();
    assert_eq!(bars.len(), 1);
    assert_eq!(bars[0].close, 10 * U);
    assert_eq!(bars[0].order_book_id, "000001");
}
