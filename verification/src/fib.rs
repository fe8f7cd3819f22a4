//! The Fibonacci retracement calculator: seven exact levels interpolated
//! between a price range's low and high.

use vstd::prelude::*;
use vstd::arithmetic::mul::{lemma_mul_inequality, lemma_mul_is_commutative,
    lemma_mul_strict_inequality};
use crate::ratio::Ratio;
use crate::series::PRICE_MAX;

verus! {

/// Retracement ratios are expressed in thousandths, so every level value is
/// an exact fraction over this denominator.
pub const RATIO_DEN: u64 = 1000;

/// The seven retracement ratios in thousandths: 0, 0.236, 0.382, 0.5,
/// 0.618, 0.786 and 1.
pub open spec fn fib_ratio(k: int) -> int {
    if k == 0 {
        0
    } else if k == 1 {
        236
    } else if k == 2 {
        382
    } else if k == 3 {
        500
    } else if k == 4 {
        618
    } else if k == 5 {
        786
    } else {
        1000
    }
}

/// Numerator of the level value `high - (high - low) * ratio`, over
/// `RATIO_DEN`.
pub open spec fn fib_value_num(low: int, high: int, k: int) -> int {
    RATIO_DEN * high - (high - low) * fib_ratio(k)
}

/// One retracement level: its ratio in thousandths and its exact value.
#[derive(Clone, Copy, PartialEq, Eq, Debug)]
pub struct FibLevel {
    pub ratio: u64,
    pub value: Ratio,
}

/// The full answer of the calculator: the input range and its seven levels,
/// ordered from ratio 0 up to ratio 1.
#[derive(PartialEq, Eq, Debug)]
pub struct FibLevels {
    pub low: u64,
    pub high: u64,
    pub levels: Vec<FibLevel>,
}

/// `f` is exactly the retracement answer owed for the range `[low, high]`.
pub open spec fn fib_levels_match(low: int, high: int, f: FibLevels) -> bool {
    &&& f.low == low
    &&& f.high == high
    &&& f.levels@.len() == 7
    &&& forall|k: int|
        0 <= k < 7 ==> {
            &&& (#[trigger] f.levels@[k]).ratio == fib_ratio(k)
            &&& f.levels@[k].value.num == fib_value_num(low, high, k)
            &&& f.levels@[k].value.den == RATIO_DEN
        }
}

/// One level of the interpolation, computed exactly in thousandths.
fn fib_level(low: u64, high: u64, ratio: u64) -> (r: FibLevel)
    requires
        low <= high <= PRICE_MAX,
        ratio <= RATIO_DEN,
    ensures
        r.ratio == ratio,
        r.value.num == RATIO_DEN * high - (high - low) * ratio,
        r.value.den == RATIO_DEN,
{
    let span = high - low;
    proof {
        lemma_mul_inequality(span as int, high as int, ratio as int);
        lemma_mul_inequality(ratio as int, RATIO_DEN as int, high as int);
        lemma_mul_is_commutative(span as int, ratio as int);
        lemma_mul_is_commutative(ratio as int, high as int);
        lemma_mul_is_commutative(high as int, RATIO_DEN as int);
    }
    let scaled = span * ratio;
    let base = high * RATIO_DEN;
    FibLevel { ratio, value: Ratio { num: base - scaled, den: RATIO_DEN } }
}

/// Computes the seven Fibonacci retracement levels of the range
/// `[low, high]`: for each ratio r the value `high - (high - low) * r`,
/// pure in its inputs and exact to the thousandth.
pub fn compute_fibonacci(low: u64, high: u64) -> (r: FibLevels)
    requires
        low <= high,
        high <= PRICE_MAX,
    ensures
        fib_levels_match(low as int, high as int, r),
{
    let mut levels: Vec<FibLevel> = Vec::new();
    levels.push(fib_level(low, high, 0));
    levels.push(fib_level(low, high, 236));
    levels.push(fib_level(low, high, 382));
    levels.push(fib_level(low, high, 500));
    levels.push(fib_level(low, high, 618));
    levels.push(fib_level(low, high, 786));
    levels.push(fib_level(low, high, 1000));
    let r = FibLevels { low, high, levels };
    proof {
        assert forall|k: int| 0 <= k < 7 implies {
            &&& (#[trigger] r.levels@[k]).ratio == fib_ratio(k)
            &&& r.levels@[k].value.num == fib_value_num(low as int, high as int, k)
            &&& r.levels@[k].value.den == RATIO_DEN
        } by {
            if k == 0 {
            } else if k == 1 {
            } else if k == 2 {
            } else if k == 3 {
            } else if k == 4 {
            } else if k == 5 {
            } else {
            }
        }
    }
    r
}

/// Why a retracement request is rejected.
#[derive(Clone, Copy, PartialEq, Eq, Debug)]
pub enum FibError {
    /// The range was inverted: its high lay below its low.
    InvalidRange,
}

/// Boundary form of the calculator: an inverted range is a caller error,
/// answered as such instead of being computed over.
pub fn fibonacci_for_range(low: u64, high: u64) -> (r: Result<FibLevels, FibError>)
    requires
        low <= PRICE_MAX,
        high <= PRICE_MAX,
    ensures
        match r {
            Ok(f) => low <= high && fib_levels_match(low as int, high as int, f),
            Err(e) => e == FibError::InvalidRange && low > high,
        },
{
    if high < low {
        Err(FibError::InvalidRange)
    } else {
        Ok(compute_fibonacci(low, high))
    }
}

/// Law: the level at ratio 0 is exactly the high of the range and the
/// level at ratio 1 exactly the low.
pub proof fn lemma_fib_endpoints(low: int, high: int, f: FibLevels)
    requires
        fib_levels_match(low, high, f),
    ensures
        f.levels[0].value.is_int(high),
        f.levels[6].value.is_int(low),
{
    assert(f.levels[0].value.num == fib_value_num(low, high, 0));
    assert(f.levels[6].value.num == fib_value_num(low, high, 6));
    assert((high - low) * 0 == 0) by (nonlinear_arith);
    assert((high - low) * 1000 == high * 1000 - low * 1000) by (nonlinear_arith);
    assert(RATIO_DEN * high == high * (RATIO_DEN as int)) by (nonlinear_arith);
    assert(low * 1000 == low * (RATIO_DEN as int));
}

/// Law: given `high > low`, level values strictly decrease as the ratio
/// increases — all seven share the denominator, and the numerators fall.
pub proof fn lemma_fib_strictly_decreasing(low: int, high: int, f: FibLevels, j: int, k: int)
    requires
        fib_levels_match(low, high, f),
        low < high,
        0 <= j < k < 7,
    ensures
        f.levels[j].value.den == f.levels[k].value.den,
        f.levels[j].value.num > f.levels[k].value.num,
{
    assert(f.levels[j].value.num == fib_value_num(low, high, j));
    assert(f.levels[k].value.num == fib_value_num(low, high, k));
    assert(fib_ratio(j) < fib_ratio(k));
    lemma_mul_strict_inequality(fib_ratio(j), fib_ratio(k), high - low);
    lemma_mul_is_commutative(fib_ratio(j), high - low);
    lemma_mul_is_commutative(fib_ratio(k), high - low);
}

} // verus!
