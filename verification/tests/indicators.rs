use candle_indicators::indicators::compute_indicators;
use candle_indicators::ratio::Ratio;
use candle_indicators::series::Candle;

fn flat(ts: u64, close: u64) -> Candle {
    Candle { ts, open: close, high: close, low: close, close, volume: 0 }
}

/// The integer EMA recurrence the contract pins: thousandths of a price
/// unit, smoothing factor 2/15.
fn ema_step(close: u64, prev: u64) -> u64 {
    (2 * 1000 * close + 13 * prev) / 15
}

#[test]
fn empty_series_yields_empty_output() {
    let series: Vec<Candle> = Vec::new();
    let out = compute_indicators(&series);
    assert!(out.is_empty());
}

#[test]
fn single_candle_all_indicators() {
    let series = vec![flat(1, 100)];
    let out = compute_indicators(&series);
    assert_eq!(out.len(), 1);
    assert_eq!(out[0].ts, 1);
    assert_eq!(out[0].sma, Some(Ratio { num: 100, den: 1 }));
    assert_eq!(out[0].ema, Some(Ratio { num: 100_000, den: 1000 }));
    assert_eq!(out[0].rsi, None);
}

#[test]
fn fifteen_rising_closes() {
    // closes 10, 11, ..., 24
    let series: Vec<Candle> = (0..15).map(|i| flat(i as u64, 10 + i as u64)).collect();
    let out = compute_indicators(&series);
    assert_eq!(out.len(), 15);

    // First point: both averages equal the first close.
    assert_eq!(out[0].sma, Some(Ratio { num: 10, den: 1 }));
    assert_eq!(out[0].ema, Some(Ratio { num: 10_000, den: 1000 }));

    // Shrinking window near the start: index 3 averages 10..=13.
    assert_eq!(out[3].sma, Some(Ratio { num: 10 + 11 + 12 + 13, den: 4 }));

    // Full window at index 14: mean of 11..=24 = 245/14 = 17.5.
    assert_eq!(out[14].sma, Some(Ratio { num: 245, den: 14 }));

    // EMA follows the recurrence; the first two steps, exactly.
    assert_eq!(out[1].ema, Some(Ratio { num: (2 * 1000 * 11 + 13 * 10_000) / 15, den: 1000 }));
    assert_eq!(out[1].ema, Some(Ratio { num: 10_133, den: 1000 }));
    let mut acc = 10_000u64;
    for i in 1..15 {
        acc = ema_step(10 + i as u64, acc);
        assert_eq!(out[i].ema, Some(Ratio { num: acc, den: 1000 }));
    }

    // Every delta is a gain, so the loss window is always zero and the
    // relative strength index is absent at every index.
    for p in &out {
        assert_eq!(p.rsi, None);
    }
}

#[test]
fn rsi_present_once_a_loss_exists() {
    let series = vec![flat(0, 10), flat(1, 12), flat(2, 9)];
    let out = compute_indicators(&series);
    assert_eq!(out[0].rsi, None);
    assert_eq!(out[1].rsi, None); // only a gain so far
    // window at index 2: gains 0 + 2 + 0 = 2, losses 0 + 0 + 3 = 3,
    // so RSI = 100 * 2 / (2 + 3) = 40.
    assert_eq!(out[2].rsi, Some(Ratio { num: 200, den: 5 }));
}

#[test]
fn rsi_window_slides_past_old_losses() {
    // One early loss, then 14 gains: the loss leaves the trailing window,
    // so the index becomes absent again.
    let mut series = vec![flat(0, 50), flat(1, 40)];
    for i in 0..14 {
        series.push(flat(2 + i as u64, 41 + i as u64));
    }
    let out = compute_indicators(&series);
    assert!(out[1].rsi.is_some());
    assert!(out[14].rsi.is_some()); // window 1..=14 still holds the loss
    assert_eq!(out[15].rsi, None); // window 2..=15 holds gains only

    // The close window slides too: at index 14 it averages closes 1..=14
    // (40 and 41..=53), at index 15 closes 2..=15 (41..=54).
    assert_eq!(out[14].sma, Some(Ratio { num: 40 + 611, den: 14 }));
    assert_eq!(out[15].sma, Some(Ratio { num: 665, den: 14 }));
}

#[test]
fn prefix_run_matches_full_run() {
    let closes: Vec<u64> = vec![30, 28, 35, 35, 31, 40, 39, 44, 41, 45, 50, 48, 47, 52, 55, 53];
    let full: Vec<Candle> =
        closes.iter().enumerate().map(|(i, &c)| flat(i as u64, c)).collect();
    let prefix: Vec<Candle> = full[..12].to_vec();
    let out_full = compute_indicators(&full);
    let out_prefix = compute_indicators(&prefix);
    for i in 0..12 {
        assert_eq!(out_full[i], out_prefix[i]);
    }
}

#[test]
fn two_runs_are_bit_identical() {
    let closes: Vec<u64> = vec![7, 3, 9, 9, 2, 14, 11, 11, 30, 1];
    let series: Vec<Candle> =
        closes.iter().enumerate().map(|(i, &c)| flat(i as u64, c)).collect();
    let a = compute_indicators(&series);
    let b = compute_indicators(&series);
    assert_eq!(a, b);
}
