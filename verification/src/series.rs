//! Ordered candle series: the data model and the shared range-selection
//! helpers that feed the indicator engine and the Fibonacci calculator.

use vstd::prelude::*;

verus! {

/// Upper bound on any price field, in integer price units. It keeps every
/// sum, scaled product and window total of the library inside `u64`.
pub const PRICE_MAX: u64 = 1_000_000_000_000_000;

/// One OHLCV candlestick. Prices and volume are integer price units; the
/// timestamp is an integer instant (e.g. seconds since an epoch).
#[derive(Clone, Copy, PartialEq, Eq, Debug)]
pub struct Candle {
    pub ts: u64,
    pub open: u64,
    pub high: u64,
    pub low: u64,
    pub close: u64,
    pub volume: u64,
}

/// A candle is well-formed when its high dominates the other prices, its low
/// is dominated by them, and every price fits the arithmetic bound.
pub open spec fn candle_wf(c: Candle) -> bool {
    &&& c.low <= c.open && c.low <= c.close && c.low <= c.high
    &&& c.open <= c.high && c.close <= c.high
    &&& c.high <= PRICE_MAX
}

/// Timestamps strictly increase: no duplicates, chronological order.
pub open spec fn series_ordered(s: Seq<Candle>) -> bool {
    forall|i: int, j: int| 0 <= i < j < s.len() ==> s[i].ts < s[j].ts
}

/// An ordered series: strictly increasing timestamps, well-formed candles.
pub open spec fn series_wf(s: Seq<Candle>) -> bool {
    &&& series_ordered(s)
    &&& forall|i: int| 0 <= i < s.len() ==> candle_wf(#[trigger] s[i])
}

/// The candle lies inside the inclusive timestamp range.
pub open spec fn in_range(c: Candle, start: u64, end: u64) -> bool {
    start <= c.ts <= end
}

/// The subsequence of `s` whose timestamps lie in `[start, end]`.
pub open spec fn range_filter(s: Seq<Candle>, start: u64, end: u64) -> Seq<Candle>
    decreases s.len(),
{
    if s.len() == 0 {
        Seq::empty()
    } else {
        let rest = range_filter(s.drop_last(), start, end);
        if in_range(s.last(), start, end) {
            rest.push(s.last())
        } else {
            rest
        }
    }
}

/// Keeps exactly the candles with `start <= ts <= end`, in their original
/// order; the selection is again a well-formed ordered series.
pub fn select_range(series: &Vec<Candle>, start: u64, end: u64) -> (out: Vec<Candle>)
    requires
        series_wf(series@),
    ensures
        out@ == range_filter(series@, start, end),
        series_wf(out@),
{
    let mut out: Vec<Candle> = Vec::new();
    let n = series.len();
    let mut i: usize = 0;
    while i < n
        invariant
            n == series@.len(),
            i <= n,
            series_wf(series@),
            out@ == range_filter(series@.take(i as int), start, end),
            series_wf(out@),
            out@.len() > 0 && i < n ==> out@.last().ts < series@[i as int].ts,
        decreases n - i,
    {
        let c = series[i];
        proof {
            assert(series@.take(i + 1).drop_last() =~= series@.take(i as int));
            assert(series@.take(i + 1).last() == series@[i as int]);
        }
        if start <= c.ts && c.ts <= end {
            proof {
                assert forall|a: int| 0 <= a < out@.len() implies out@[a].ts < c.ts by {
                    if a < out@.len() - 1 {
                        assert(out@[a].ts < out@.last().ts);
                    }
                }
            }
            out.push(c);
        }
        i = i + 1;
    }
    proof {
        assert(series@.take(n as int) =~= series@);
    }
    out
}

/// Why a range request is rejected before any computation runs.
#[derive(Clone, Copy, PartialEq, Eq, Debug)]
pub enum RangeError {
    /// Exactly one of the two bounds was supplied.
    PartialBounds,
}

/// Applies the range-selection policy: no bounds selects the whole series,
/// both bounds select the inclusive sub-range, and a single bound is a
/// caller error.
pub fn resolve_range(
    series: &Vec<Candle>,
    start: Option<u64>,
    end: Option<u64>,
) -> (r: Result<Vec<Candle>, RangeError>)
    requires
        series_wf(series@),
    ensures
        match r {
            Ok(out) => {
                &&& series_wf(out@)
                &&& match (start, end) {
                    (Some(a), Some(b)) => out@ == range_filter(series@, a, b),
                    (None, None) => out@ == series@,
                    _ => false,
                }
            },
            Err(e) => {
                &&& e == RangeError::PartialBounds
                &&& (start is Some) != (end is Some)
            },
        },
{
    match (start, end) {
        (Some(a), Some(b)) => Ok(select_range(series, a, b)),
        (None, None) => {
            let mut out: Vec<Candle> = Vec::new();
            let n = series.len();
            let mut i: usize = 0;
            while i < n
                invariant
                    n == series@.len(),
                    i <= n,
                    out@ == series@.take(i as int),
                decreases n - i,
            {
                out.push(series[i]);
                proof {
                    assert(out@ =~= series@.take(i + 1));
                }
                i = i + 1;
            }
            proof {
                assert(series@.take(n as int) =~= series@);
            }
            Ok(out)
        },
        _ => Err(RangeError::PartialBounds),
    }
}

/// `v` is the least low of the series.
pub open spec fn is_min_low(s: Seq<Candle>, v: u64) -> bool {
    &&& exists|k: int| 0 <= k < s.len() && (#[trigger] s[k]).low == v
    &&& forall|k: int| 0 <= k < s.len() ==> v <= (#[trigger] s[k]).low
}

/// `v` is the greatest high of the series.
pub open spec fn is_max_high(s: Seq<Candle>, v: u64) -> bool {
    &&& exists|k: int| 0 <= k < s.len() && (#[trigger] s[k]).high == v
    &&& forall|k: int| 0 <= k < s.len() ==> (#[trigger] s[k]).high <= v
}

/// The price range spanned by a series: its least low and greatest high,
/// the pair that feeds the Fibonacci calculator. `None` exactly on an empty
/// series.
pub fn price_extent(series: &Vec<Candle>) -> (r: Option<(u64, u64)>)
    requires
        series_wf(series@),
    ensures
        match r {
            Some(p) => {
                &&& series@.len() > 0
                &&& is_min_low(series@, p.0)
                &&& is_max_high(series@, p.1)
                &&& p.0 <= p.1 <= PRICE_MAX
            },
            None => series@.len() == 0,
        },
{
    let n = series.len();
    if n == 0 {
        return None;
    }
    let mut lo = series[0].low;
    let mut hi = series[0].high;
    let mut i: usize = 1;
    proof {
        assert(series@.take(1)[0] == series@[0]);
    }
    while i < n
        invariant
            n == series@.len(),
            1 <= i <= n,
            series_wf(series@),
            is_min_low(series@.take(i as int), lo),
            is_max_high(series@.take(i as int), hi),
        decreases n - i,
    {
        let c = series[i];
        if c.low < lo {
            lo = c.low;
        }
        if c.high > hi {
            hi = c.high;
        }
        proof {
            let t = series@.take(i + 1);
            assert(t[i as int] == series@[i as int]);
            assert forall|k: int| 0 <= k < t.len() implies lo <= (#[trigger] t[k]).low by {
                if k < i {
                    assert(series@.take(i as int)[k] == t[k]);
                }
            }
            assert forall|k: int| 0 <= k < t.len() implies (#[trigger] t[k]).high <= hi by {
                if k < i {
                    assert(series@.take(i as int)[k] == t[k]);
                }
            }
        }
        i = i + 1;
    }
    proof {
        assert(series@.take(n as int) =~= series@);
        let k = choose|k: int| 0 <= k < series@.len() && (#[trigger] series@[k]).low == lo;
        assert(candle_wf(series@[k]));
        assert(lo <= series@[k].high <= hi);
    }
    Some((lo, hi))
}

} // verus!
