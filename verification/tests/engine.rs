use hiquant::bar::Bar;
use hiquant::date::Date;
use hiquant::engine::{BacktestConfig, BacktestEngine, Context, SmaCrossStrategy, SmaParams, Strategy};
use std::cell::RefCell;
use std::rc::Rc;
use hiquant::enums::Frequency;

/// Sixty daily bars whose closes fall, then rise, then fall again, so the
/// averages cross both ways.
fn daily_bars(code: &str, start: Date, n: usize) -> Vec<Bar> {
    let mut out = Vec::new();
    let mut d = start;
    for i in 0..n {
        let i = i as i64;
        let close = if i < 20 {
            10_000_000 - i * 50_000
        } else if i < 40 {
            9_000_000 + (i - 20) * 100_000
        } else {
            11_000_000 - (i - 40) * 100_000
        };
        let mut b = Bar::new(code.to_string(), Frequency::Day, d.as_str());
        b.trading_date = Some(d);
        b.open = close;
        b.high = close + 100_000;
        b.low = close - 100_000;
        b.close = close;
        b.volume = 1_000_000;
        out.push(b);
        d = d.succ();
    }
    out
}

#[test]
fn backtest_sma_cross_runs() {
    let bars = daily_bars("000001", Date::from_ymd(2024, 1, 2), 60);
    let params = SmaParams { code: "000001".to_string(), fast: 5, slow: 20, lots: 100 };
    let strategy = SmaCrossStrategy::new(params);
    let mut engine = BacktestEngine::new(BacktestConfig::default(), strategy);
    engine.load_bars("000001".to_string(), bars);

    let result = engine.run();
    assert!(!result.equity_curve.is_empty());
    assert_eq!(result.equity_curve.len(), 60);
    assert!(result.init_cash > 0);
    // indicator points were recorded
    assert!(!result.indicators.is_empty());
    assert!(result.trade_count >= 2);
    assert_eq!(result.equity_curve[0].date, "2024-01-02");
    assert_eq!(result.final_qifi.account_cookie, "backtest");
}

#[test]
fn backtest_orders_bars_by_time() {
    let mut a = daily_bars("000001", Date::from_ymd(2024, 3, 1), 3);
    let b = daily_bars("000001", Date::from_ymd(2024, 2, 1), 3);
    a.extend(b);
    let params = SmaParams { code: "000001".to_string(), fast: 1, slow: 2, lots: 10 };
    let mut engine = BacktestEngine::new(BacktestConfig::default(), SmaCrossStrategy::new(params));
    engine.load_bars("000001".to_string(), a);
    let result = engine.run();
    let dates: Vec<String> = result.equity_curve.iter().map(|p| p.date.clone()).collect();
    assert_eq!(
        dates,
        vec!["2024-02-01", "2024-02-02", "2024-02-03", "2024-03-01", "2024-03-02", "2024-03-03"]
    );
}

#[test]
fn sma_of_closes() {
    let mut s = SmaCrossStrategy::new(SmaParams::default());
    assert_eq!(s.sma(2), None);
    s.closes = vec![10, 20, 31];
    assert_eq!(s.sma(2), Some(25));
    assert_eq!(s.sma(3), Some(20));
    assert_eq!(s.sma(0), None);
}

#[test]
fn value_points_add_up() {
    let bars = daily_bars("000001", Date::from_ymd(2024, 1, 2), 60);
    let strategy = SmaCrossStrategy::new(SmaParams { code: "000001".to_string(), fast: 3, slow: 10, lots: 100 });
    let mut engine = BacktestEngine::new(BacktestConfig::default(), strategy);
    engine.load_bars("000001".to_string(), bars);
    let result = engine.run();
    for p in &result.equity_curve {
        assert_eq!(p.total_value, p.cash + p.market_value + p.float_pnl);
    }
    assert_eq!(result.equity_curve[0].total_value, result.init_cash);
}

const UNIT: i128 = 1_000_000;

fn bar(code: &str, datetime: &str, close: i64) -> Bar {
    let mut b = Bar::new(code.to_string(), Frequency::Day, datetime.to_string());
    b.close = close;
    b
}

#[test]
fn two_day_backtest_exact() {
    let params = SmaParams { code: "000001".to_string(), fast: 1, slow: 2, lots: 100 };
    let mut e = BacktestEngine::new(BacktestConfig::default(), SmaCrossStrategy::new(params));
    e.load_bars(
        "000001".to_string(),
        vec![bar("000001", "2024-01-02", 10_000_000), bar("000001", "2024-01-03", 11_000_000)],
    );
    e.load_bars("600000".to_string(), vec![bar("600000", "2024-01-02", 5_000_000)]);
    let r = e.run();
    assert_eq!(r.equity_curve.len(), 2);
    assert_eq!(r.equity_curve[0].total_value, 1_000_000 * UNIT);
    assert_eq!(r.equity_curve[1].cash, 998_895 * UNIT);
    assert_eq!(r.equity_curve[1].total_value, 999_995 * UNIT);
    assert_eq!(r.trade_count, 1);
    assert_eq!(r.indicators.len(), 3);
}

#[test]
fn empty_backtest() {
    let mut e = BacktestEngine::new(BacktestConfig::default(), SmaCrossStrategy::new(SmaParams::default()));
    let r = e.run();
    assert!(r.equity_curve.is_empty());
    assert!(r.indicators.is_empty());
    assert!(r.trades.is_empty());
    assert_eq!(r.account_cookie, "backtest");
    assert_eq!(r.init_cash, 1_000_000 * UNIT);
    assert_eq!(r.trade_count, 0);
}

struct Recorder {
    code: String,
    log: Rc<RefCell<Vec<String>>>,
}

impl Strategy for Recorder {
    fn name(&self) -> &str {
        "recorder"
    }

    fn on_start(&mut self, _ctx: &mut Context) {
        self.log.borrow_mut().push("start".to_string());
    }

    fn on_bar(&mut self, _ctx: &mut Context, bar: &Bar) {
        self.log.borrow_mut().push(format!("bar {}", bar.datetime));
    }

    fn on_day_open(&mut self, _ctx: &mut Context, date: Date) {
        self.log.borrow_mut().push(format!("open {}", date.as_str()));
    }

    fn on_day_close(&mut self, _ctx: &mut Context, date: Date) {
        self.log.borrow_mut().push(format!("close {}", date.as_str()));
    }

    fn on_stop(&mut self, _ctx: &mut Context) {
        self.log.borrow_mut().push("stop".to_string());
    }

    fn instruments(&self) -> Vec<String> {
        vec![self.code.clone()]
    }
}

#[test]
fn callbacks_come_in_order() {
    let log = Rc::new(RefCell::new(Vec::new()));
    let rec = Recorder { code: "000001".to_string(), log: log.clone() };
    let mut e = BacktestEngine::new(BacktestConfig::default(), rec);
    let mut b1 = bar("000001", "2024-01-02 15:00", 10_000_000);
    b1.trading_date = Some(Date::from_ymd(2024, 1, 2));
    let mut b2 = bar("000001", "2024-01-03 15:00", 11_000_000);
    b2.trading_date = Some(Date::from_ymd(2024, 1, 3));
    e.load_bars("000001".to_string(), vec![b1, b2]);
    e.run();
    assert_eq!(
        *log.borrow(),
        vec![
            "start",
            "open 2024-01-02",
            "bar 2024-01-02 15:00",
            "close 2024-01-02",
            "open 2024-01-03",
            "bar 2024-01-03 15:00",
            "close 2024-01-03",
            "stop",
        ]
    );
}
