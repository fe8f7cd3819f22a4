//! Verified computation of candlestick chart indicators.
//!
//! The library works on an ordered series of OHLCV candles whose prices are
//! given in fixed integer price units (a caller scales real prices to units
//! once, at the boundary). From such a series it computes, per candle, a
//! 14-point simple moving average, a 14-point exponential moving average and
//! a Wilder-style relative strength index, and from a price range the seven
//! Fibonacci retracement levels. Averages and ratios are returned as exact
//! fractions so that every value is pinned by the contracts.

pub mod fib;
pub mod indicators;
pub mod ratio;
pub mod series;
