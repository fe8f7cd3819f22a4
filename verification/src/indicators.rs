//! The indicator engine: one forward pass over an ordered candle series
//! producing, per candle, the 14-point simple moving average, the 14-point
//! exponential moving average and the Wilder-style relative strength index.

use vstd::prelude::*;
use vstd::arithmetic::div_mod::lemma_div_is_ordered;
use crate::ratio::Ratio;
use crate::series::{Candle, candle_wf, series_wf, PRICE_MAX};

verus! {

/// Denominator of every exponential-moving-average value: the engine keeps
/// the accumulator in thousandths of a price unit.
pub const EMA_DEN: u64 = 1000;

/// The closing prices of a series, as mathematical integers.
pub open spec fn closes(s: Seq<Candle>) -> Seq<int> {
    Seq::new(s.len(), |j: int| s[j].close as int)
}

/// First index of the trailing window of up to 14 points ending at `i`.
pub open spec fn win_lo(i: int) -> int {
    if i >= 13 {
        i - 13
    } else {
        0
    }
}

/// Sum of `v[lo..hi]`.
pub open spec fn range_sum(v: Seq<int>, lo: int, hi: int) -> int
    decreases hi - lo,
{
    if lo >= hi {
        0
    } else {
        range_sum(v, lo, hi - 1) + v[hi - 1]
    }
}

/// The sum can also be peeled at its lower end.
pub proof fn lemma_range_sum_unfold_lo(v: Seq<int>, lo: int, hi: int)
    requires
        lo < hi,
    ensures
        range_sum(v, lo, hi) == v[lo] + range_sum(v, lo + 1, hi),
    decreases hi - lo,
{
    if lo + 1 < hi {
        lemma_range_sum_unfold_lo(v, lo, hi - 1);
        assert(range_sum(v, lo, hi) == range_sum(v, lo, hi - 1) + v[hi - 1]);
        assert(range_sum(v, lo + 1, hi) == range_sum(v, lo + 1, hi - 1) + v[hi - 1]);
    } else {
        assert(range_sum(v, lo, hi) == range_sum(v, lo, lo) + v[lo]);
        assert(range_sum(v, lo + 1, hi) == 0);
    }
}

/// A sum of entries from `[0, m]` lies in `[0, (hi - lo) * m]`.
pub proof fn lemma_range_sum_bound(v: Seq<int>, lo: int, hi: int, m: int)
    requires
        lo <= hi,
        forall|k: int| lo <= k < hi ==> 0 <= #[trigger] v[k] <= m,
    ensures
        0 <= range_sum(v, lo, hi) <= (hi - lo) * m,
    decreases hi - lo,
{
    if lo < hi {
        lemma_range_sum_bound(v, lo, hi - 1, m);
        assert(range_sum(v, lo, hi) == range_sum(v, lo, hi - 1) + v[hi - 1]);
        assert(0 <= v[hi - 1] <= m);
        assert((hi - lo) * m == (hi - 1 - lo) * m + m) by (nonlinear_arith);
    } else {
        assert((hi - lo) * m == 0) by (nonlinear_arith)
            requires hi == lo;
    }
}

/// Sums agree on sequences that agree over the summed range.
pub proof fn lemma_range_sum_agree(v1: Seq<int>, v2: Seq<int>, lo: int, hi: int)
    requires
        forall|k: int| lo <= k < hi ==> #[trigger] v1[k] == v2[k],
    ensures
        range_sum(v1, lo, hi) == range_sum(v2, lo, hi),
    decreases hi - lo,
{
    if lo < hi {
        lemma_range_sum_agree(v1, v2, lo, hi - 1);
    }
}

/// Numerator of the simple moving average at `i`: the window sum of closes.
pub open spec fn sma_num(c: Seq<int>, i: int) -> int {
    range_sum(c, win_lo(i), i + 1)
}

/// Denominator of the simple moving average at `i`: the window width, which
/// shrinks to `i + 1` near the start of the series.
pub open spec fn sma_den(i: int) -> int {
    i + 1 - win_lo(i)
}

/// Exponential-moving-average accumulator at `i`, in thousandths of a price
/// unit. The smoothing factor is 2/15, so each step takes
/// `(2 * close + 13 * previous) / 15`, a strictly sequential recurrence over
/// all earlier closes.
pub open spec fn ema_num(c: Seq<int>, i: int) -> int
    decreases i,
{
    if i <= 0 {
        EMA_DEN * c[0]
    } else {
        (2 * EMA_DEN * c[i] + 13 * ema_num(c, i - 1)) / 15
    }
}

/// Upward close-to-close move ending at `j`; zero at the first candle.
pub open spec fn gain_at(c: Seq<int>, j: int) -> int {
    if j <= 0 {
        0
    } else if c[j] >= c[j - 1] {
        c[j] - c[j - 1]
    } else {
        0
    }
}

/// Downward close-to-close move ending at `j`; zero at the first candle.
pub open spec fn loss_at(c: Seq<int>, j: int) -> int {
    if j <= 0 {
        0
    } else if c[j] < c[j - 1] {
        c[j - 1] - c[j]
    } else {
        0
    }
}

pub open spec fn gains(c: Seq<int>) -> Seq<int> {
    Seq::new(c.len(), |j: int| gain_at(c, j))
}

pub open spec fn losses(c: Seq<int>) -> Seq<int> {
    Seq::new(c.len(), |j: int| loss_at(c, j))
}

/// Window sum of gains ending at `i`.
pub open spec fn gain_sum(c: Seq<int>, i: int) -> int {
    range_sum(gains(c), win_lo(i), i + 1)
}

/// Window sum of losses ending at `i`.
pub open spec fn loss_sum(c: Seq<int>, i: int) -> int {
    range_sum(losses(c), win_lo(i), i + 1)
}

/// The relative strength index is defined at `i` exactly when the window
/// holds some loss; with no loss the index is absent rather than a sentinel.
pub open spec fn rsi_defined(c: Seq<int>, i: int) -> bool {
    loss_sum(c, i) != 0
}

/// Numerator of the index: `100 - 100 / (1 + avgGain / avgLoss)` over the
/// equal-width window means reduces to `100 * gainSum / (gainSum + lossSum)`.
pub open spec fn rsi_num(c: Seq<int>, i: int) -> int {
    100 * gain_sum(c, i)
}

/// Denominator of the index.
pub open spec fn rsi_den(c: Seq<int>, i: int) -> int {
    gain_sum(c, i) + loss_sum(c, i)
}

/// One output point of the engine: the input candle's timestamp and the
/// three indicator values, each absent when mathematically undefined.
#[derive(Clone, Copy, PartialEq, Eq, Debug)]
pub struct IndicatorPoint {
    pub ts: u64,
    pub sma: Option<Ratio>,
    pub ema: Option<Ratio>,
    pub rsi: Option<Ratio>,
}

/// `p` is exactly the indicator point owed for index `i` of series `s`:
/// the simple moving average is the exact window mean, the exponential
/// moving average is the recurrence accumulator over `EMA_DEN`, and the
/// relative strength index is present, and exact, just when the loss window
/// is non-zero.
pub open spec fn point_matches(s: Seq<Candle>, i: int, p: IndicatorPoint) -> bool {
    let c = closes(s);
    &&& p.ts == s[i].ts
    &&& match p.sma {
        Some(r) => r.num == sma_num(c, i) && r.den == sma_den(i),
        None => false,
    }
    &&& match p.ema {
        Some(r) => r.num == ema_num(c, i) && r.den == EMA_DEN,
        None => false,
    }
    &&& match p.rsi {
        Some(r) => rsi_defined(c, i) && r.num == rsi_num(c, i) && r.den == rsi_den(c, i),
        None => !rsi_defined(c, i),
    }
}

/// Produces one indicator point per input candle, in input order, each
/// pinned to its mathematical value by `point_matches`. An empty series
/// yields an empty output and no error.
pub fn compute_indicators(series: &Vec<Candle>) -> (out: Vec<IndicatorPoint>)
    requires
        series_wf(series@),
    ensures
        out@.len() == series@.len(),
        forall|i: int| 0 <= i < series@.len() ==> point_matches(series@, i, #[trigger] out@[i]),
{
    let ghost c = closes(series@);
    let n = series.len();
    let mut out: Vec<IndicatorPoint> = Vec::new();
    let mut win_sum: u64 = 0;
    let mut g_sum: u64 = 0;
    let mut l_sum: u64 = 0;
    let mut ema: u64 = 0;
    let mut i: usize = 0;
    proof {
        lemma_close_bounds(series@);
    }
    while i < n
        invariant
            n == series@.len(),
            i <= n,
            series_wf(series@),
            c == closes(series@),
            forall|k: int| 0 <= k < c.len() ==> 0 <= #[trigger] c[k] <= PRICE_MAX,
            forall|k: int| 0 <= k < c.len() ==> 0 <= #[trigger] gains(c)[k] <= PRICE_MAX,
            forall|k: int| 0 <= k < c.len() ==> 0 <= #[trigger] losses(c)[k] <= PRICE_MAX,
            out@.len() == i,
            forall|k: int| 0 <= k < i ==> point_matches(series@, k, #[trigger] out@[k]),
            win_sum == range_sum(c, win_lo(i - 1), i as int),
            g_sum == range_sum(gains(c), win_lo(i - 1), i as int),
            l_sum == range_sum(losses(c), win_lo(i - 1), i as int),
            i > 0 ==> ema == ema_num(c, i - 1),
            ema <= EMA_DEN * PRICE_MAX,
        decreases n - i,
    {
        let ghost gi = gains(c);
        let ghost li = losses(c);
        proof {
            lemma_range_sum_bound(c, win_lo(i - 1), i as int, PRICE_MAX as int);
            lemma_range_sum_bound(gi, win_lo(i - 1), i as int, PRICE_MAX as int);
            lemma_range_sum_bound(li, win_lo(i - 1), i as int, PRICE_MAX as int);
            assert(i - win_lo(i - 1) <= 14);
        }
        let cl = series[i].close;

        // Slide the close window: the sum over [win_lo(i-1), i) becomes the
        // sum over [win_lo(i), i+1).
        win_sum = win_sum + cl;
        if i >= 14 {
            proof {
                lemma_range_sum_unfold_lo(c, i - 14, i + 1);
                lemma_range_sum_bound(c, i - 13, i + 1, PRICE_MAX as int);
            }
            win_sum = win_sum - series[i - 14].close;
        }

        // Slide the gain and loss windows the same way.
        if i >= 1 {
            let prev = series[i - 1].close;
            let g: u64 = if cl >= prev { cl - prev } else { 0 };
            let l: u64 = if cl < prev { prev - cl } else { 0 };
            proof {
                assert(gi[i as int] == gain_at(c, i as int));
                assert(li[i as int] == loss_at(c, i as int));
            }
            g_sum = g_sum + g;
            l_sum = l_sum + l;
        }
        if i >= 14 {
            proof {
                lemma_range_sum_unfold_lo(gi, i - 14, i + 1);
                lemma_range_sum_bound(gi, i - 13, i + 1, PRICE_MAX as int);
                lemma_range_sum_unfold_lo(li, i - 14, i + 1);
                lemma_range_sum_bound(li, i - 13, i + 1, PRICE_MAX as int);
            }
            let j = i - 14;
            if j >= 1 {
                let a = series[j - 1].close;
                let b = series[j].close;
                let gout: u64 = if b >= a { b - a } else { 0 };
                let lout: u64 = if b < a { a - b } else { 0 };
                proof {
                    assert(gi[j as int] == gain_at(c, j as int));
                    assert(li[j as int] == loss_at(c, j as int));
                }
                g_sum = g_sum - gout;
                l_sum = l_sum - lout;
            } else {
                proof {
                    assert(gi[0] == 0 && li[0] == 0);
                }
            }
        }

        // Advance the exponential-moving-average accumulator.
        if i == 0 {
            ema = cl * EMA_DEN;
        } else {
            let next = (2 * EMA_DEN * cl + 13 * ema) / 15;
            proof {
                lemma_div_is_ordered(
                    2 * EMA_DEN * cl + 13 * ema,
                    15 * EMA_DEN * (PRICE_MAX as int),
                    15,
                );
            }
            ema = next;
        }

        let width: u64 = if i >= 13 { 14 } else { (i + 1) as u64 };
        let sma = Some(Ratio { num: win_sum, den: width });
        let ema_val = Some(Ratio { num: ema, den: EMA_DEN });
        let rsi = if l_sum == 0 {
            None
        } else {
            Some(Ratio { num: 100 * g_sum, den: g_sum + l_sum })
        };
        out.push(IndicatorPoint { ts: series[i].ts, sma, ema: ema_val, rsi });
        proof {
            assert(point_matches(series@, i as int, out@[i as int]));
        }
        i = i + 1;
    }
    out
}

/// Law: on any non-empty series the first point's simple and exponential
/// moving averages both equal the first close exactly, and its relative
/// strength index is absent (no delta exists yet).
pub proof fn lemma_first_point(s: Seq<Candle>, p: IndicatorPoint)
    requires
        s.len() > 0,
        point_matches(s, 0, p),
    ensures
        match p.sma {
            Some(r) => r.is_int(s[0].close as int),
            None => false,
        },
        match p.ema {
            Some(r) => r.is_int(s[0].close as int),
            None => false,
        },
        p.rsi is None,
{
    let c = closes(s);
    assert(range_sum(c, 0, 0) == 0);
    assert(range_sum(losses(c), 0, 0) == 0);
    assert(sma_num(c, 0) == c[0]);
    assert(loss_sum(c, 0) == losses(c)[0]);
    assert(losses(c)[0] == loss_at(c, 0));
}

/// The exponential-moving-average accumulator reads only closes `0..=i`.
proof fn lemma_ema_prefix(c1: Seq<int>, c2: Seq<int>, i: int)
    requires
        0 <= i,
        forall|k: int| 0 <= k <= i ==> #[trigger] c1[k] == c2[k],
    ensures
        ema_num(c1, i) == ema_num(c2, i),
    decreases i,
{
    if i > 0 {
        lemma_ema_prefix(c1, c2, i - 1);
    }
}

/// Law: the engine is independent of window truncation. Every indicator at
/// index `i` reads only candles `0..=i`, so recomputing on any prefix that
/// still contains index `i` owes exactly the same point there; for the
/// exponential moving average this is the determinism of the sequential
/// recurrence.
pub proof fn lemma_prefix_stable(s: Seq<Candle>, n: int, i: int, p: IndicatorPoint)
    requires
        0 <= i < n <= s.len(),
    ensures
        point_matches(s.take(n), i, p) <==> point_matches(s, i, p),
{
    let t = s.take(n);
    let c1 = closes(t);
    let c2 = closes(s);
    assert(t[i] == s[i]);
    assert forall|k: int| 0 <= k <= i implies #[trigger] c1[k] == c2[k] by {
        assert(t[k] == s[k]);
    }
    lemma_range_sum_agree(c1, c2, win_lo(i), i + 1);
    lemma_ema_prefix(c1, c2, i);
    assert forall|k: int| win_lo(i) <= k < i + 1 implies #[trigger] gains(c1)[k] == gains(c2)[k]
        && losses(c1)[k] == losses(c2)[k] by {
        assert(c1[k] == c2[k]);
        if k > 0 {
            assert(c1[k - 1] == c2[k - 1]);
        }
    }
    lemma_range_sum_agree(gains(c1), gains(c2), win_lo(i), i + 1);
    lemma_range_sum_agree(losses(c1), losses(c2), win_lo(i), i + 1);
}

/// Law: the relative strength index is absent exactly when the trailing
/// loss window sums to zero — equivalently, when the average loss over the
/// window is zero — and is never a sentinel value.
pub proof fn lemma_rsi_absent_iff(s: Seq<Candle>, i: int, p: IndicatorPoint)
    requires
        0 <= i < s.len(),
        point_matches(s, i, p),
    ensures
        (p.rsi is None) <==> loss_sum(closes(s), i) == 0,
{
}

/// Law: the contract pins the whole output, so two runs on the same series
/// return identical points — computing indicators is deterministic and
/// idempotent.
pub proof fn lemma_output_determined(
    s: Seq<Candle>,
    out1: Seq<IndicatorPoint>,
    out2: Seq<IndicatorPoint>,
)
    requires
        out1.len() == s.len(),
        out2.len() == s.len(),
        forall|i: int| 0 <= i < s.len() ==> point_matches(s, i, #[trigger] out1[i]),
        forall|i: int| 0 <= i < s.len() ==> point_matches(s, i, #[trigger] out2[i]),
    ensures
        out1 == out2,
{
    assert forall|i: int| 0 <= i < s.len() implies out1[i] == out2[i] by {
        let p1 = out1[i];
        let p2 = out2[i];
        assert(point_matches(s, i, p1));
        assert(point_matches(s, i, p2));
        assert(p1.sma == p2.sma);
        assert(p1.ema == p2.ema);
        assert(p1.rsi == p2.rsi);
    }
    assert(out1 =~= out2);
}

/// Every close, gain and loss of a well-formed series lies in
/// `[0, PRICE_MAX]`.
proof fn lemma_close_bounds(s: Seq<Candle>)
    requires
        series_wf(s),
    ensures
        forall|k: int| 0 <= k < closes(s).len() ==> 0 <= #[trigger] closes(s)[k] <= PRICE_MAX,
        forall|k: int|
            0 <= k < closes(s).len() ==> 0 <= #[trigger] gains(closes(s))[k] <= PRICE_MAX,
        forall|k: int|
            0 <= k < closes(s).len() ==> 0 <= #[trigger] losses(closes(s))[k] <= PRICE_MAX,
{
    let c = closes(s);
    assert forall|k: int| 0 <= k < c.len() implies 0 <= #[trigger] c[k] <= PRICE_MAX by {
        assert(candle_wf(s[k]));
    }
    assert forall|k: int| 0 <= k < c.len() implies 0 <= #[trigger] gains(c)[k] <= PRICE_MAX by {
        assert(candle_wf(s[k]));
        if k > 0 {
            assert(candle_wf(s[k - 1]));
        }
    }
    assert forall|k: int| 0 <= k < c.len() implies 0 <= #[trigger] losses(c)[k] <= PRICE_MAX by {
        assert(candle_wf(s[k]));
        if k > 0 {
            assert(candle_wf(s[k - 1]));
        }
    }
}

} // verus!
