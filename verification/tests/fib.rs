use candle_indicators::fib::{compute_fibonacci, fibonacci_for_range, FibError};
use candle_indicators::ratio::Ratio;

#[test]
fn levels_for_50_to_150() {
    let f = compute_fibonacci(50, 150);
    assert_eq!(f.low, 50);
    assert_eq!(f.high, 150);
    assert_eq!(f.levels.len(), 7);

    let ratios: Vec<u64> = f.levels.iter().map(|l| l.ratio).collect();
    assert_eq!(ratios, vec![0, 236, 382, 500, 618, 786, 1000]);

    // ratio 0 -> 150, ratio 0.5 -> 100, ratio 1 -> 50, all over 1000.
    assert_eq!(f.levels[0].value, Ratio { num: 150_000, den: 1000 });
    assert_eq!(f.levels[3].value, Ratio { num: 100_000, den: 1000 });
    assert_eq!(f.levels[6].value, Ratio { num: 50_000, den: 1000 });

    // value = high - (high - low) * ratio, exactly: 0.236 -> 126.4.
    assert_eq!(f.levels[1].value, Ratio { num: 150_000 - 100 * 236, den: 1000 });

    // Strictly decreasing values over a strictly positive span.
    for w in f.levels.windows(2) {
        assert!(w[0].value.num > w[1].value.num);
        assert_eq!(w[0].value.den, w[1].value.den);
    }
}

#[test]
fn degenerate_range_is_constant() {
    let f = compute_fibonacci(100, 100);
    for l in &f.levels {
        assert_eq!(l.value, Ratio { num: 100_000, den: 1000 });
    }
}

#[test]
fn inverted_range_is_rejected() {
    assert_eq!(fibonacci_for_range(150, 50), Err(FibError::InvalidRange));
    let ok = fibonacci_for_range(50, 150).unwrap();
    assert_eq!(ok.levels[0].value, Ratio { num: 150_000, den: 1000 });
}
