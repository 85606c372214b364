use hiquant::bar::{sort_bars_by_time, text_less, Bar, BarCollection};
use hiquant::enums::Frequency;

const U: i64 = 1_000_000;

fn bar(dt: &str, open: i64, high: i64, low: i64, close: i64, volume: i64) -> Bar {
    let mut b = Bar::new("000001".to_string(), Frequency::Day, dt.to_string());
    b.open = open;
    b.high = high;
    b.low = low;
    b.close = close;
    b.volume = volume;
    b
}

#[test]
fn new_bar_is_empty() {
    let b = Bar::new("000001".to_string(), Frequency::Min1, "2024-01-02 09:31".to_string());
    assert_eq!(b.order_book_id, "000001");
    assert_eq!(b.frequency, Frequency::Min1);
    assert_eq!(b.close, 0);
    assert!(b.trading_date.is_none());
    assert_eq!(b.split_coefficient_to, 1_000_000);
}

#[test]
fn candle_shape() {
    let b = bar("2024-01-02", 10 * U, 12 * U, 9 * U, 11 * U, 100);
    assert_eq!(b.body_size(), (U) as i128);
    assert_eq!(b.upper_shadow(), (U) as i128);
    assert_eq!(b.lower_shadow(), (U) as i128);
    assert_eq!(b.range(), (3 * U) as i128);
    // (12 + 9 + 11) / 3 = 10.666666..., truncated to the micro-unit
    assert_eq!(b.typical_price(), 10_666_666);
    assert!(b.is_bullish());
    assert!(!b.is_bearish());
    let d = bar("2024-01-03", 11 * U, 11 * U, 10 * U, 10 * U, 100);
    assert!(d.is_bearish());
    assert_eq!(d.upper_shadow(), 0);
    assert_eq!(d.lower_shadow(), 0);
}

#[test]
fn limits_and_change() {
    let mut b = bar("2024-01-02", 10 * U, 11 * U, 10 * U, 11 * U, 100);
    b.pre_close = 10 * U;
    b.limit_up = 11 * U;
    b.limit_down = 9 * U;
    assert!(b.is_limit_up());
    assert!(!b.is_limit_down());
    assert_eq!(b.change_amount(), U as i128);
    b.limit_up = 0;
    b.close = 0;
    assert!(!b.is_limit_up());
}

#[test]
fn collection_statistics() {
    let mut c = BarCollection::new();
    assert!(c.is_empty());
    assert_eq!(c.max_price(), None);
    assert_eq!(c.avg_price(), 0);
    c.add(bar("2024-01-02", 10 * U, 12 * U, 9 * U, 10 * U, 100));
    c.add_batch(vec![
        bar("2024-01-03", 10 * U, 13 * U, 8 * U, 11 * U, 200),
        bar("2024-01-04", 11 * U, 11 * U, 10 * U, 12 * U, 300),
    ]);
    assert_eq!(c.size(), 3);
    assert_eq!(c.closes(), vec![10 * U, 11 * U, 12 * U]);
    assert_eq!(c.highs(), vec![12 * U, 13 * U, 11 * U]);
    assert_eq!(c.lows(), vec![9 * U, 8 * U, 10 * U]);
    assert_eq!(c.volumes(), vec![100, 200, 300]);
    assert_eq!(c.max_price(), Some(13 * U));
    assert_eq!(c.min_price(), Some(8 * U));
    assert_eq!(c.avg_price(), 11 * U);
    assert_eq!(c.total_volume(), 600);
    assert_eq!(c.last().unwrap().datetime, "2024-01-04");
    assert_eq!(c.get_range(1, 3).len(), 2);
}

#[test]
fn sma_values() {
    let mut c = BarCollection::new();
    for (i, close) in [10, 11, 12, 13].iter().enumerate() {
        c.add(bar(&format!("2024-01-0{}", i + 2), close * U, close * U, close * U, close * U, 1));
    }
    let s = c.sma(3);
    assert_eq!(s, vec![None, None, Some(11 * U), Some(12 * U)]);
    let s1 = c.sma(1);
    assert_eq!(s1, vec![Some(10 * U), Some(11 * U), Some(12 * U), Some(13 * U)]);
}

#[test]
fn sorting_is_stable_by_time() {
    let mut c = BarCollection::new();
    c.add(bar("2024-01-03", U, U, U, U, 1));
    c.add(bar("2024-01-02", U, U, U, U, 2));
    c.add(bar("2024-01-03", U, U, U, U, 3));
    c.sort_by_time();
    let vols: Vec<i64> = c.bars.iter().map(|b| b.volume).collect();
    assert_eq!(vols, vec![2, 1, 3]);
    let sorted = sort_bars_by_time(vec![bar("b", U, U, U, U, 1), bar("a", U, U, U, U, 2)]);
    assert_eq!(sorted[0].datetime, "a");
}

#[test]
fn text_order() {
    assert!(text_less("2024-01-02", "2024-01-03"));
    assert!(!text_less("2024-01-03", "2024-01-03"));
    assert!(text_less("2024", "2024-01-01"));
    assert!(!text_less("b", "a"));
}
