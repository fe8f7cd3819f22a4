//! Exact fractions of unsigned integers, the value form of every indicator.

use vstd::prelude::*;

verus! {

/// A non-negative rational number `num / den`, kept exact instead of being
/// rounded to a machine float. Every fraction the library returns carries a
/// positive denominator, pinned by the producing function's contract.
#[derive(Clone, Copy, PartialEq, Eq, Debug)]
pub struct Ratio {
    pub num: u64,
    pub den: u64,
}

impl Ratio {
    /// The fraction denotes exactly the integer `x`.
    pub open spec fn is_int(self, x: int) -> bool {
        self.den > 0 && self.num == x * self.den
    }
}

} // verus!
