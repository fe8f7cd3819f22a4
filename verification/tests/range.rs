use candle_indicators::series::{price_extent, resolve_range, select_range, Candle, RangeError};

fn candle(ts: u64, low: u64, high: u64) -> Candle {
    Candle { ts, open: low, high, low, close: high, volume: 3 }
}

fn sample() -> Vec<Candle> {
    vec![
        candle(10, 5, 9),
        candle(20, 4, 7),
        candle(30, 6, 12),
        candle(40, 8, 11),
    ]
}

#[test]
fn select_range_is_inclusive() {
    let s = sample();
    let out = select_range(&s, 20, 30);
    let ts: Vec<u64> = out.iter().map(|c| c.ts).collect();
    assert_eq!(ts, vec![20, 30]);

    let all = select_range(&s, 0, 100);
    assert_eq!(all.len(), 4);

    let none = select_range(&s, 41, 100);
    assert!(none.is_empty());
}

#[test]
fn resolve_range_policy() {
    let s = sample();
    let full = resolve_range(&s, None, None).unwrap();
    assert_eq!(full.len(), 4);
    assert_eq!(full[0].ts, 10);

    let sub = resolve_range(&s, Some(15), Some(35)).unwrap();
    let ts: Vec<u64> = sub.iter().map(|c| c.ts).collect();
    assert_eq!(ts, vec![20, 30]);

    assert_eq!(resolve_range(&s, Some(15), None), Err(RangeError::PartialBounds));
    assert_eq!(resolve_range(&s, None, Some(35)), Err(RangeError::PartialBounds));
}

#[test]
fn extent_spans_lows_and_highs() {
    let s = sample();
    assert_eq!(price_extent(&s), Some((4, 12)));

    let empty: Vec<Candle> = Vec::new();
    assert_eq!(price_extent(&empty), None);

    let one = vec![candle(1, 42, 99)];
    assert_eq!(price_extent(&one), Some((42, 99)));
}
